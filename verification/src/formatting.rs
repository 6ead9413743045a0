use vstd::prelude::*;

use crate::load::parse::ascii_to_string;
use crate::value::SampleValue;

verus! {

/// Display classification carried per signal.
///
/// The sampling path never interprets this tag; it only travels with the
/// signal so that rendering code can choose glyphs. `Vector` and
/// `BitVector` carry the declared bit width. `Analog` carries the width
/// and an encoded lower and upper display bound; the bounds are opaque
/// 64-bit payloads chosen by the caller and never read by this crate.
/// `Comment` marks a pseudo-signal with no sample data.
#[derive(Debug, Clone, Copy, PartialEq, Eq, Structural)]
pub enum WaveFormat {
    Bit,
    Vector(u32),
    BitVector(u32),
    Analog(u32, u64, u64),
    Comment,
}

impl WaveFormat {
    /// Whether the tag marks an annotation pseudo-signal.
    pub open spec fn spec_is_comment(&self) -> bool {
        self is Comment
    }

    pub fn is_comment(&self) -> (r: bool)
        ensures
            r == self.spec_is_comment(),
    {
        match self {
            WaveFormat::Comment => true,
            _ => false,
        }
    }
}


/// Digit character of one bit.
pub open spec fn bin_char(b: bool) -> char {
    if b {
        '1'
    } else {
        '0'
    }
}

/// Minimal binary rendering of a canonical bit sequence, most
/// significant digit first; zero renders as one `0`.
pub open spec fn spec_bin(bits: Seq<bool>) -> Seq<char> {
    if bits.len() == 0 {
        seq!['0']
    } else {
        Seq::new(bits.len(), |i: int| bin_char(bits[bits.len() - 1 - i]))
    }
}

/// Value of the `j`-th nibble of a bit sequence, low nibble first; bits
/// past the end read as zero.
pub open spec fn spec_nibble(bits: Seq<bool>, j: int) -> int {
    (if 0 <= 4 * j < bits.len() && bits[4 * j] {
        1int
    } else {
        0int
    }) + (if 0 <= 4 * j + 1 < bits.len() && bits[4 * j + 1] {
        2int
    } else {
        0int
    }) + (if 0 <= 4 * j + 2 < bits.len() && bits[4 * j + 2] {
        4int
    } else {
        0int
    }) + (if 0 <= 4 * j + 3 < bits.len() && bits[4 * j + 3] {
        8int
    } else {
        0int
    })
}

/// Lower-case hexadecimal digit character of a nibble value.
pub open spec fn hex_char(d: int) -> char {
    if d < 10 {
        ((48 + d) as char)
    } else {
        ((87 + d) as char)
    }
}

/// Number of hexadecimal digits a bit sequence needs; zero needs one.
pub open spec fn hex_len(bits: Seq<bool>) -> int {
    if bits.len() == 0 {
        1
    } else {
        (bits.len() as int + 3) / 4
    }
}

/// Minimal hexadecimal rendering of a canonical bit sequence, most
/// significant digit first.
pub open spec fn spec_hex(bits: Seq<bool>) -> Seq<char> {
    Seq::new(hex_len(bits) as nat, |i: int| hex_char(spec_nibble(bits, hex_len(bits) - 1 - i)))
}

/// Digits left-padded with zeros to a display width.
pub open spec fn zero_pad(s: Seq<char>, w: int) -> Seq<char> {
    if s.len() >= w {
        s
    } else {
        Seq::new((w - s.len()) as nat, |i: int| '0') + s
    }
}

/// How a value renders under a format tag: plain binary for `Bit`;
/// `0x`-prefixed hexadecimal padded to the declared width for `Vector`
/// and `Analog`; `0b`-prefixed binary padded to the declared width for
/// `BitVector`; nothing for `Comment`.
pub open spec fn spec_format_value(bits: Seq<bool>, format: WaveFormat) -> Seq<char> {
    match format {
        WaveFormat::Bit => spec_bin(bits),
        WaveFormat::Vector(sz) => "0x"@ + zero_pad(
            spec_hex(bits),
            (if sz % 4 == 0 {
                sz as int / 4
            } else {
                sz as int / 4 + 1
            }),
        ),
        WaveFormat::Analog(sz, _, _) => "0x"@ + zero_pad(
            spec_hex(bits),
            (if sz % 4 == 0 {
                sz as int / 4
            } else {
                sz as int / 4 + 1
            }),
        ),
        WaveFormat::BitVector(sz) => "0b"@ + zero_pad(spec_bin(bits), sz as int),
        WaveFormat::Comment => Seq::empty(),
    }
}

/// Binary digit bytes of a value, most significant first.
fn bin_bytes(value: &SampleValue) -> (r: Vec<u8>)
    ensures
        r@.len() == spec_bin(value.spec_bits()).len(),
        forall|i: int|
            0 <= i < r@.len() ==> #[trigger] r@[i] < 128 && (r@[i] as char) == spec_bin(
                value.spec_bits(),
            )[i],
{
    let n = value.bit_len();
    let mut r: Vec<u8> = Vec::new();
    if n == 0 {
        r.push(48);
        proof {
            assert(spec_bin(value.spec_bits()) =~= seq!['0']);
            assert((48u8 as char) == '0');
        }
        return r;
    }
    let mut i: usize = 0;
    while i < n
        invariant
            i <= n,
            n == value.spec_bits().len(),
            n > 0,
            r@.len() == i,
            forall|j: int|
                0 <= j < i ==> #[trigger] r@[j] < 128 && (r@[j] as char) == bin_char(
                    value.spec_bits()[n - 1 - j],
                ),
        decreases n - i,
    {
        let b = value.bit(n - 1 - i);
        r.push(
            if b {
                49
            } else {
                48
            },
        );
        proof {
            assert((49u8 as char) == '1');
            assert((48u8 as char) == '0');
        }
        i = i + 1;
    }
    r
}

/// Hexadecimal digit bytes of a value, most significant first.
fn hex_bytes(value: &SampleValue) -> (r: Vec<u8>)
    ensures
        r@.len() == spec_hex(value.spec_bits()).len(),
        forall|i: int|
            0 <= i < r@.len() ==> #[trigger] r@[i] < 128 && (r@[i] as char) == spec_hex(
                value.spec_bits(),
            )[i],
{
    let n = value.bit_len();
    let ndig: usize = if n == 0 {
        1
    } else {
        (n - 1) / 4 + 1
    };
    proof {
        if n > 0 {
            assert((n as int - 1) / 4 + 1 == (n as int + 3) / 4) by (nonlinear_arith);
        }
    }
    let mut r: Vec<u8> = Vec::new();
    let mut i: usize = 0;
    while i < ndig
        invariant
            i <= ndig,
            n == value.spec_bits().len(),
            ndig == hex_len(value.spec_bits()),
            r@.len() == i,
            forall|j: int|
                0 <= j < i ==> #[trigger] r@[j] < 128 && (r@[j] as char) == hex_char(
                    spec_nibble(value.spec_bits(), ndig - 1 - j),
                ),
        decreases ndig - i,
    {
        let j = ndig - 1 - i;
        let base = 4 * j;
        let mut d: u8 = 0;
        if value.bit(base) {
            d = d + 1;
        }
        if value.bit(base + 1) {
            d = d + 2;
        }
        if value.bit(base + 2) {
            d = d + 4;
        }
        if value.bit(base + 3) {
            d = d + 8;
        }
        let byte: u8 = if d < 10 {
            48 + d
        } else {
            87 + d
        };
        r.push(byte);
        proof {
            let bits = value.spec_bits();
            assert(d as int == spec_nibble(bits, j as int));
            assert((byte as char) == hex_char(spec_nibble(bits, j as int)));
        }
        i = i + 1;
    }
    r
}

/// Renders a sample value under a format tag, as display code shows it.
pub fn format_value(value: &SampleValue, format: WaveFormat) -> (r: String)
    ensures
        r@ == spec_format_value(value.spec_bits(), format),
{
    match format {
        WaveFormat::Bit => {
            let b = bin_bytes(value);
            let s = ascii_to_string(&b);
            proof {
                assert(s@ =~= spec_format_value(value.spec_bits(), format));
            }
            s
        },
        WaveFormat::Vector(sz) => format_prefixed(value, sz, false),
        WaveFormat::Analog(sz, _, _) => format_prefixed(value, sz, false),
        WaveFormat::BitVector(sz) => format_prefixed(value, sz, true),
        WaveFormat::Comment => {
            let s = String::new();
            proof {
                assert(s@ =~= spec_format_value(value.spec_bits(), format));
            }
            s
        },
    }
}

/// Shared rendering of the prefixed, width-padded formats.
fn format_prefixed(value: &SampleValue, sz: u32, binary: bool) -> (r: String)
    ensures
        !binary ==> r@ == "0x"@ + zero_pad(
            spec_hex(value.spec_bits()),
            (if sz % 4 == 0 {
                sz as int / 4
            } else {
                sz as int / 4 + 1
            }),
        ),
        binary ==> r@ == "0b"@ + zero_pad(spec_bin(value.spec_bits()), sz as int),
{
    let digits = if binary {
        bin_bytes(value)
    } else {
        hex_bytes(value)
    };
    let width: usize = if binary {
        sz as usize
    } else {
        if sz % 4 == 0 {
            (sz / 4) as usize
        } else {
            (sz / 4 + 1) as usize
        }
    };
    let mut out = if binary {
        "0b".to_owned()
    } else {
        "0x".to_owned()
    };
    let dl = digits.len();
    let ghost spec_digits = (if binary {
        spec_bin(value.spec_bits())
    } else {
        spec_hex(value.spec_bits())
    });
    let mut pad: usize = 0;
    let ghost padlen = (if spec_digits.len() >= width {
        0int
    } else {
        width - spec_digits.len()
    });
    let npad: usize = if dl >= width {
        0
    } else {
        width - dl
    };
    while pad < npad
        invariant
            pad <= npad,
            npad == padlen,
            out@.len() == (if binary {
                "0b"@.len()
            } else {
                "0x"@.len()
            }) + pad,
            out@ =~= (if binary {
                "0b"@
            } else {
                "0x"@
            }) + Seq::new(pad as nat, |i: int| '0'),
        decreases npad - pad,
    {
        out.append("0");
        proof {
            reveal_strlit("0");
            assert(out@ =~= (if binary {
                "0b"@
            } else {
                "0x"@
            }) + Seq::new((pad + 1) as nat, |i: int| '0'));
        }
        pad = pad + 1;
    }
    let tail = ascii_to_string(&digits);
    out.append(tail.as_str());
    proof {
        assert(out@ =~= (if binary {
            "0b"@
        } else {
            "0x"@
        }) + zero_pad(spec_digits, width as int));
    }
    out
}

} // verus!
