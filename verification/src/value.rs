use vstd::prelude::*;

verus! {

/// Numeric value of a bit sequence read least-significant bit first.
pub open spec fn bits_value(s: Seq<bool>) -> nat
    decreases s.len(),
{
    if s.len() == 0 {
        0
    } else {
        ((if s[0] {
            1nat
        } else {
            0nat
        }) + 2 * bits_value(s.drop_first())) as nat
    }
}

/// Numeric value of a bit sequence read most-significant bit first, the
/// order in which an event log reports vector bits.
pub open spec fn msb_value(s: Seq<bool>) -> nat
    decreases s.len(),
{
    if s.len() == 0 {
        0
    } else {
        (2 * msb_value(s.drop_last()) + (if s.last() {
            1nat
        } else {
            0nat
        })) as nat
    }
}

/// A least-significant-bit-first sequence is canonical when it carries no
/// trailing zero bits, so every number has exactly one canonical form.
pub open spec fn canonical_bits(s: Seq<bool>) -> bool {
    s.len() == 0 || s.last()
}

/// An arbitrary-precision unsigned sample value, stored as its canonical
/// bit sequence, least-significant bit first.
///
/// Sample matrices hold these values; the sampling path never performs
/// arithmetic on them, it only assembles them from event-log bits and
/// compares them.
#[derive(Debug)]
pub struct SampleValue {
    bits: Vec<bool>,
}

/// A canonical bit sequence with value zero is empty.
proof fn lemma_zero_is_empty(s: Seq<bool>)
    requires
        canonical_bits(s),
        bits_value(s) == 0,
    ensures
        s.len() == 0,
    decreases s.len(),
{
    if s.len() > 0 {
        assert(!s[0]);
        assert(bits_value(s.drop_first()) == 0);
        if s.len() == 1 {
            assert(s.last() == s[0]);
        } else {
            assert(s.drop_first().last() == s.last());
            lemma_zero_is_empty(s.drop_first());
        }
    }
}

/// Two canonical bit sequences with the same value are the same sequence.
pub proof fn lemma_canonical_unique(a: Seq<bool>, b: Seq<bool>)
    requires
        canonical_bits(a),
        canonical_bits(b),
        bits_value(a) == bits_value(b),
    ensures
        a == b,
    decreases a.len(),
{
    if a.len() == 0 {
        lemma_zero_is_empty(b);
        assert(a =~= b);
    } else if b.len() == 0 {
        lemma_zero_is_empty(a);
        assert(a =~= b);
    } else {
        let at = a.drop_first();
        let bt = b.drop_first();
        assert(a[0] == b[0]) by {
            assert(bits_value(a) % 2 == (if a[0] {
                1int
            } else {
                0int
            }));
            assert(bits_value(b) % 2 == (if b[0] {
                1int
            } else {
                0int
            }));
        }
        assert(bits_value(at) == bits_value(bt));
        if a.len() == 1 {
            assert(canonical_bits(at));
        } else {
            assert(at.last() == a.last());
        }
        if b.len() == 1 {
            assert(canonical_bits(bt));
        } else {
            assert(bt.last() == b.last());
        }
        lemma_canonical_unique(at, bt);
        assert(a =~= seq![a[0]] + at);
        assert(b =~= seq![b[0]] + bt);
    }
}

/// Dropping a leading (most-significant) zero bit keeps the value.
proof fn lemma_msb_drop_leading_zero(s: Seq<bool>)
    requires
        s.len() > 0,
        !s[0],
    ensures
        msb_value(s) == msb_value(s.drop_first()),
    decreases s.len(),
{
    if s.len() == 1 {
        assert(s.drop_first() =~= Seq::<bool>::empty());
        assert(s.drop_last() =~= Seq::<bool>::empty());
        assert(s.last() == s[0]);
        assert(msb_value(s.drop_last()) == 0);
        assert(msb_value(s.drop_first()) == 0);
        assert(msb_value(s) == 2 * msb_value(s.drop_last()) + 0);
    } else {
        let dl = s.drop_last();
        let df = s.drop_first();
        assert(dl[0] == s[0]);
        lemma_msb_drop_leading_zero(dl);
        assert(dl.drop_first() =~= df.drop_last());
        assert(df.last() == s.last());
        assert(msb_value(s) == 2 * msb_value(dl) + (if s.last() {
            1nat
        } else {
            0nat
        }));
        assert(msb_value(df) == 2 * msb_value(df.drop_last()) + (if df.last() {
            1nat
        } else {
            0nat
        }));
    }
}

/// Reading a sequence most-significant bit first gives the same number as
/// reading its reverse least-significant bit first.
proof fn lemma_msb_is_reversed_lsb(s: Seq<bool>)
    ensures
        msb_value(s) == bits_value(s.reverse()),
    decreases s.len(),
{
    if s.len() > 0 {
        lemma_msb_is_reversed_lsb(s.drop_last());
        assert(s.reverse()[0] == s.last());
        assert(s.reverse().drop_first() =~= s.drop_last().reverse());
    }
}

impl View for SampleValue {
    type V = nat;

    closed spec fn view(&self) -> nat {
        bits_value(self.bits@)
    }
}

impl SampleValue {
    /// The stored bit sequence is canonical; every constructor establishes
    /// this and it makes bit-level equality coincide with value equality.
    pub closed spec fn wf(&self) -> bool {
        canonical_bits(self.bits@)
    }

    /// The zero value.
    pub fn zero() -> (r: Self)
        ensures
            r@ == 0,
            r.wf(),
    {
        SampleValue { bits: Vec::new() }
    }

    /// Assembles a value from bits given most-significant bit first, as an
    /// event log reports them: bit `i` of the input lands at weight
    /// `2^(len - 1 - i)`.
    pub fn from_bits_msb(m: &Vec<bool>) -> (r: Self)
        ensures
            r@ == msb_value(m@),
            r.wf(),
    {
        let n = m.len();
        let mut lead: usize = 0;
        proof {
            assert(m@.skip(0) =~= m@);
        }
        while lead < n && !m[lead]
            invariant
                lead <= n,
                n == m@.len(),
                forall|i: int| 0 <= i < lead ==> !m@[i],
                msb_value(m@.skip(lead as int)) == msb_value(m@),
            decreases n - lead,
        {
            proof {
                lemma_msb_drop_leading_zero(m@.skip(lead as int));
                assert(m@.skip(lead as int).drop_first() =~= m@.skip(lead as int + 1));
            }
            lead = lead + 1;
        }
        let mut bits: Vec<bool> = Vec::new();
        let mut i: usize = n;
        while i > lead
            invariant
                lead <= i <= n,
                n == m@.len(),
                bits@ =~= m@.subrange(i as int, n as int).reverse(),
            decreases i,
        {
            i = i - 1;
            bits.push(m[i]);
            proof {
                assert(m@.subrange(i as int, n as int).reverse() =~= m@.subrange(
                    i as int + 1,
                    n as int,
                ).reverse().push(m@[i as int]));
            }
        }
        proof {
            assert(m@.subrange(lead as int, n as int) =~= m@.skip(lead as int));
            lemma_msb_is_reversed_lsb(m@.skip(lead as int));
            assert(bits@ =~= m@.skip(lead as int).reverse());
            if lead < n {
                assert(m@[lead as int]);
                assert(bits@.last() == m@[lead as int]);
            }
        }
        SampleValue { bits }
    }

    /// Builds the value of a machine word, for tests and small constants.
    pub fn from_u64(v: u64) -> (r: Self)
        ensures
            r@ == v,
            r.wf(),
    {
        let mut bits: Vec<bool> = Vec::new();
        let mut cur: u64 = v;
        proof {
            vstd::arithmetic::power2::lemma_pow2_pos(0);
            vstd::arithmetic::power2::lemma2_to64();
            assert(bits_value(bits@) == 0);
            assert(cur * vstd::arithmetic::power2::pow2(bits@.len()) == v);
        }
        while cur > 0
            invariant
                bits_value(bits@) + cur * vstd::arithmetic::power2::pow2(bits@.len()) == v,
                cur == 0 ==> canonical_bits(bits@),
                cur > 0 ==> vstd::arithmetic::power2::pow2(bits@.len()) <= v,
            decreases cur,
        {
            let b = cur % 2 == 1;
            let next = cur / 2;
            proof {
                let p = vstd::arithmetic::power2::pow2(bits@.len());
                vstd::arithmetic::power2::lemma_pow2_unfold(bits@.len() + 1);
                lemma_bits_push(bits@, b);
                assert(bits_value(bits@.push(b)) + next * vstd::arithmetic::power2::pow2(
                    bits@.len() + 1,
                ) == v) by (nonlinear_arith)
                    requires
                        bits_value(bits@.push(b)) == bits_value(bits@) + (if b {
                            1nat
                        } else {
                            0nat
                        }) * p,
                        vstd::arithmetic::power2::pow2(bits@.len() + 1) == 2 * p,
                        bits_value(bits@) + cur * p == v,
                        next == cur / 2,
                        b == (cur % 2 == 1),
                        cur > 0,
                ;
                if next > 0 {
                    assert(next * vstd::arithmetic::power2::pow2(bits@.len() + 1) <= v);
                    assert(vstd::arithmetic::power2::pow2(bits@.len() + 1) <= next
                        * vstd::arithmetic::power2::pow2(bits@.len() + 1)) by (nonlinear_arith)
                        requires
                            next > 0,
                    ;
                }
            }
            bits.push(b);
            cur = next;
        }
        SampleValue { bits }
    }

    /// Bitwise copy of the value.
    pub fn dup(&self) -> (r: Self)
        ensures
            r.spec_bits() == self.spec_bits(),
            r@ == self@,
            r.wf() == self.wf(),
    {
        let mut bits: Vec<bool> = Vec::new();
        let n = self.bits.len();
        let mut i: usize = 0;
        while i < n
            invariant
                i <= n,
                n == self.bits@.len(),
                bits@ =~= self.bits@.take(i as int),
            decreases n - i,
        {
            bits.push(self.bits[i]);
            i = i + 1;
        }
        proof {
            assert(bits@ =~= self.bits@);
        }
        SampleValue { bits }
    }

    /// Value equality. Canonical storage makes this a plain sequence
    /// comparison.
    pub fn eq_value(&self, other: &SampleValue) -> (r: bool)
        requires
            self.wf(),
            other.wf(),
        ensures
            r == (self@ == other@),
    {
        if self.bits.len() != other.bits.len() {
            proof {
                if self@ == other@ {
                    lemma_canonical_unique(self.bits@, other.bits@);
                }
            }
            return false;
        }
        let n = self.bits.len();
        let mut i: usize = 0;
        while i < n
            invariant
                self.wf(),
                other.wf(),
                i <= n,
                n == self.bits@.len(),
                n == other.bits@.len(),
                forall|j: int| 0 <= j < i ==> self.bits@[j] == other.bits@[j],
            decreases n - i,
        {
            if self.bits[i] != other.bits[i] {
                proof {
                    if self@ == other@ {
                        lemma_canonical_unique(self.bits@, other.bits@);
                    }
                }
                return false;
            }
            i = i + 1;
        }
        proof {
            assert(self.bits@ =~= other.bits@);
        }
        true
    }

    /// The stored bits, least-significant first, for rendering.
    pub fn bit_len(&self) -> (r: usize)
        ensures
            r == self.spec_bits().len(),
    {
        self.bits.len()
    }

    /// Bit at weight `2^i`; out-of-range bits are zero.
    pub fn bit(&self, i: usize) -> (r: bool)
        ensures
            r == self.spec_bit(i as int),
    {
        if i < self.bits.len() {
            self.bits[i]
        } else {
            false
        }
    }

    /// The canonical bit sequence, least-significant first.
    pub closed spec fn spec_bits(&self) -> Seq<bool> {
        self.bits@
    }

    /// A well-formed value stores the canonical bits of its number.
    pub proof fn lemma_bits(&self)
        requires
            self.wf(),
        ensures
            canonical_bits(self.spec_bits()),
            bits_value(self.spec_bits()) == self@,
    {
    }

    /// Bit at weight `2^i` of the value; zero outside the stored range.
    pub open spec fn spec_bit(&self, i: int) -> bool {
        0 <= i < self.spec_bits().len() && self.spec_bits()[i]
    }
}

/// Appending a most-significant bit adds its weight to the value.
pub proof fn lemma_bits_push(s: Seq<bool>, b: bool)
    ensures
        bits_value(s.push(b)) == bits_value(s) + (if b {
            1nat
        } else {
            0nat
        }) * vstd::arithmetic::power2::pow2(s.len()),
    decreases s.len(),
{
    vstd::arithmetic::power2::lemma_pow2_pos(s.len());
    if s.len() == 0 {
        assert(s.push(b) =~= seq![b]);
        assert(bits_value(seq![b].drop_first()) == 0);
        vstd::arithmetic::power2::lemma2_to64();
    } else {
        assert(s.push(b).drop_first() =~= s.drop_first().push(b));
        lemma_bits_push(s.drop_first(), b);
        vstd::arithmetic::power2::lemma_pow2_unfold(s.len());
        assert(bits_value(s.push(b)) == (if s[0] {
            1nat
        } else {
            0nat
        }) + 2 * bits_value(s.drop_first().push(b)));
        let p = vstd::arithmetic::power2::pow2((s.len() - 1) as nat);
        let bv = (if b {
            1nat
        } else {
            0nat
        });
        assert(2 * (bits_value(s.drop_first()) + bv * p) == 2 * bits_value(s.drop_first()) + bv * (
        2 * p)) by (nonlinear_arith);
    }
}

} // verus!
