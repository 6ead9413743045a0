use vstd::prelude::*;

use crate::formatting::WaveFormat;
use crate::load::SignalDeclaration;
use crate::simtime::{parse_unit, SimTime, SimTimeUnit};
use vstd::string::StringExecFns;
use vstd::string::StrSliceExecFns;

verus! {

/// Whitespace that separates tokens of an event log: space, tab, line
/// feed and carriage return.
pub open spec fn is_ws(b: u8) -> bool {
    b == 32 || b == 9 || b == 10 || b == 13
}

/// Character a log byte stands for: ASCII bytes map to themselves and
/// anything else is replaced, keeping the token structure of a damaged
/// file intact.
pub open spec fn byte_char(b: u8) -> char {
    if b < 128 {
        b as char
    } else {
        '?'
    }
}

/// One byte fed to the tokenizer state: a pair of finished tokens and the
/// token being collected.
pub open spec fn tok_step(st: (Seq<Seq<char>>, Seq<char>), b: u8) -> (Seq<Seq<char>>, Seq<char>) {
    if is_ws(b) {
        if st.1.len() > 0 {
            (st.0.push(st.1), Seq::empty())
        } else {
            st
        }
    } else {
        (st.0, st.1.push(byte_char(b)))
    }
}

/// Tokenizer state after consuming a byte prefix.
pub open spec fn tok_run(bytes: Seq<u8>) -> (Seq<Seq<char>>, Seq<char>)
    decreases bytes.len(),
{
    if bytes.len() == 0 {
        (Seq::empty(), Seq::empty())
    } else {
        tok_step(tok_run(bytes.drop_last()), bytes.last())
    }
}

/// The tokens of a byte stream: maximal runs of non-whitespace bytes, in
/// order, with non-ASCII bytes replaced.
pub open spec fn spec_tokens(bytes: Seq<u8>) -> Seq<Seq<char>> {
    let st = tok_run(bytes);
    if st.1.len() > 0 {
        st.0.push(st.1)
    } else {
        st.0
    }
}

/// Extending the consumed prefix by one byte steps the tokenizer once.
proof fn lemma_tok_run_step(bytes: Seq<u8>, i: int)
    requires
        0 <= i < bytes.len(),
    ensures
        tok_run(bytes.take(i + 1)) == tok_step(tok_run(bytes.take(i)), bytes[i]),
{
    assert(bytes.take(i + 1).drop_last() =~= bytes.take(i));
    assert(bytes.take(i + 1).last() == bytes[i]);
}

/// Relies on `String::from_utf8`: a sequence of bytes below 128 is valid
/// UTF-8 and decodes to exactly those bytes as characters.
#[verifier::external_body]
pub(crate) fn ascii_to_string(v: &Vec<u8>) -> (r: String)
    requires
        forall|i: int| 0 <= i < v@.len() ==> v@[i] < 128,
    ensures
        r@.len() == v@.len(),
        forall|i: int| 0 <= i < v@.len() ==> r@[i] == (v@[i] as char),
{
    String::from_utf8(v.clone()).unwrap_or_default()
}

/// Splits a log into its whitespace-separated tokens.
pub fn tokenize(bytes: &Vec<u8>) -> (r: Vec<String>)
    ensures
        r@.len() == spec_tokens(bytes@).len(),
        forall|i: int|
            0 <= i < r@.len() ==> (#[trigger] r@[i])@ == spec_tokens(bytes@)[i],
{
    let n = bytes.len();
    let mut done: Vec<String> = Vec::new();
    let mut cur: Vec<u8> = Vec::new();
    let mut i: usize = 0;
    proof {
        assert(bytes@.take(0) =~= Seq::<u8>::empty());
    }
    while i < n
        invariant
            i <= n,
            n == bytes@.len(),
            ({
                let st = tok_run(bytes@.take(i as int));
                &&& done@.len() == st.0.len()
                &&& forall|j: int| 0 <= j < done@.len() ==> (#[trigger] done@[j])@ == st.0[j]
                &&& cur@.len() == st.1.len()
                &&& forall|j: int| 0 <= j < cur@.len() ==> byte_char(#[trigger] cur@[j]) == st.1[j]
                &&& forall|j: int| 0 <= j < cur@.len() ==> #[trigger] cur@[j] < 128
            }),
        decreases n - i,
    {
        proof {
            lemma_tok_run_step(bytes@, i as int);
        }
        let b = bytes[i];
        if b == 32 || b == 9 || b == 10 || b == 13 {
            if cur.len() > 0 {
                let tok = ascii_to_string(&cur);
                proof {
                    assert(tok@ =~= tok_run(bytes@.take(i as int)).1);
                }
                done.push(tok);
                cur = Vec::new();
            }
        } else {
            let c = if b < 128 {
                b
            } else {
                63
            };
            proof {
                assert(byte_char(bytes@[i as int]) == (c as char));
            }
            cur.push(c);
        }
        i = i + 1;
    }
    if cur.len() > 0 {
        let tok = ascii_to_string(&cur);
        proof {
            assert(bytes@.take(n as int) =~= bytes@);
            assert(tok@ =~= tok_run(bytes@).1);
        }
        done.push(tok);
    }
    proof {
        assert(bytes@.take(n as int) =~= bytes@);
    }
    done
}

/// Compares a token against a literal, character by character.
pub fn str_is(t: &String, lit: &str) -> (r: bool)
    ensures
        r == (t@ == lit@),
{
    let ts = t.as_str();
    let n = ts.unicode_len();
    let m = lit.unicode_len();
    if n != m {
        return false;
    }
    let mut i: usize = 0;
    while i < n
        invariant
            i <= n,
            n == ts@.len(),
            n == lit@.len(),
            ts@ == t@,
            forall|j: int| 0 <= j < i ==> ts@[j] == lit@[j],
        decreases n - i,
    {
        if ts.get_char(i) != lit.get_char(i) {
            return false;
        }
        i = i + 1;
    }
    proof {
        assert(t@ =~= lit@);
    }
    true
}


/// Decimal digit, by code point.
pub open spec fn is_digit(c: char) -> bool {
    48 <= c as u32 <= 57
}

/// A non-empty run of decimal digits.
pub open spec fn is_digits(s: Seq<char>) -> bool {
    s.len() > 0 && forall|i: int| 0 <= i < s.len() ==> is_digit(#[trigger] s[i])
}

/// Numeric value of one digit character; anything else counts as zero.
pub open spec fn digit_val(c: char) -> nat {
    if is_digit(c) {
        (c as u32 - 48) as nat
    } else {
        0
    }
}

/// Value of a digit run read as a decimal number.
pub open spec fn dec_val(s: Seq<char>) -> nat
    decreases s.len(),
{
    if s.len() == 0 {
        0
    } else {
        dec_val(s.drop_last()) * 10 + digit_val(s.last())
    }
}

/// The decimal reading of a token: defined exactly for non-empty digit
/// runs whose value fits a machine word.
pub open spec fn spec_parse_u64(s: Seq<char>) -> Option<u64> {
    if is_digits(s) && dec_val(s) <= u64::MAX {
        Some(dec_val(s) as u64)
    } else {
        None
    }
}

/// A decimal reading never shrinks as digits are appended.
proof fn lemma_dec_val_prefix(s: Seq<char>, j: int)
    requires
        0 <= j <= s.len(),
    ensures
        dec_val(s) >= dec_val(s.take(j)),
    decreases s.len() - j,
{
    if j < s.len() {
        lemma_dec_val_prefix(s, j + 1);
        assert(s.take(j + 1).drop_last() =~= s.take(j));
        assert(dec_val(s.take(j + 1)) == dec_val(s.take(j)) * 10 + digit_val(s.take(j + 1).last()));
        assert(dec_val(s.take(j)) * 10 >= dec_val(s.take(j))) by (nonlinear_arith);
    } else {
        assert(s.take(j) =~= s);
    }
}

/// Reads a token as a decimal machine word.
pub fn parse_u64(t: &str) -> (r: Option<u64>)
    ensures
        r == spec_parse_u64(t@),
{
    let n = t.unicode_len();
    if n == 0 {
        return None;
    }
    let mut acc: u128 = 0;
    let mut i: usize = 0;
    proof {
        assert(t@.take(0) =~= Seq::<char>::empty());
    }
    while i < n
        invariant
            i <= n,
            n == t@.len(),
            forall|j: int| 0 <= j < i ==> is_digit(#[trigger] t@[j]),
            acc == dec_val(t@.take(i as int)),
            acc <= u64::MAX,
        decreases n - i,
    {
        let c = t.get_char(i);
        let u = c as u32;
        if u < 48 || u > 57 {
            return None;
        }
        proof {
            assert(t@.take(i + 1).drop_last() =~= t@.take(i as int));
            assert(t@.take(i + 1).last() == t@[i as int]);
        }
        let na: u128 = acc * 10 + ((u - 48) as u128);
        if na > 0xffff_ffff_ffff_ffff {
            proof {
                lemma_dec_val_prefix(t@, i + 1);
            }
            return None;
        }
        acc = na;
        i = i + 1;
    }
    proof {
        assert(t@.take(n as int) =~= t@);
    }
    Some(acc as u64)
}

/// Position of the next `$end` token, or the token count where none
/// follows.
pub open spec fn find_end(toks: Seq<Seq<char>>, i: int) -> int
    decreases toks.len() - i,
{
    if i < 0 || i >= toks.len() {
        toks.len() as int
    } else if toks[i] == "$end"@ {
        i
    } else {
        find_end(toks, i + 1)
    }
}

/// Position just after the next `$end` token: where scanning resumes once
/// a header command's payload has been passed over.
pub open spec fn skip_past_end(toks: Seq<Seq<char>>, i: int) -> int {
    if find_end(toks, i) < toks.len() {
        find_end(toks, i) + 1
    } else {
        toks.len() as int
    }
}

pub proof fn lemma_find_end_bounds(toks: Seq<Seq<char>>, i: int)
    requires
        0 <= i <= toks.len(),
    ensures
        i <= find_end(toks, i) <= toks.len(),
        i <= skip_past_end(toks, i) <= toks.len(),
    decreases toks.len() - i,
{
    if i < toks.len() && toks[i] != "$end"@ {
        lemma_find_end_bounds(toks, i + 1);
    }
}

/// Finds the next `$end` token.
pub fn find_end_exec(toks: &Vec<String>, i: usize) -> (r: usize)
    requires
        i <= toks@.len(),
    ensures
        r == find_end(tok_views(toks@), i as int),
        i <= r <= toks@.len(),
{
    let n = toks.len();
    let mut j = i;
    while j < n
        invariant
            i <= j <= n,
            n == toks@.len(),
            find_end(tok_views(toks@), i as int) == find_end(tok_views(toks@), j as int),
            forall|x: int| i <= x < j ==> tok_views(toks@)[x] != "$end"@,
        decreases n - j,
    {
        if str_is_str(toks[j].as_str(), "$end") {
            proof {
                lemma_find_end_bounds(tok_views(toks@), j as int);
            }
            return j;
        }
        j = j + 1;
    }
    n
}

/// The views of a token vector.
pub open spec fn tok_views(toks: Seq<String>) -> Seq<Seq<char>> {
    toks.map_values(|t: String| t@)
}

/// Tokens joined with single spaces, the text of an annotation.
pub open spec fn spec_join(toks: Seq<Seq<char>>, i: int, end: int) -> Seq<char>
    decreases end - i,
{
    if i >= end {
        Seq::empty()
    } else {
        toks[i] + join_tail(toks, i + 1, end)
    }
}

/// The remaining tokens of a joined run, each preceded by one space.
pub open spec fn join_tail(toks: Seq<Seq<char>>, i: int, end: int) -> Seq<char>
    decreases end - i,
{
    if i >= end {
        Seq::empty()
    } else {
        " "@ + toks[i] + join_tail(toks, i + 1, end)
    }
}

/// A joined run splits at any point.
proof fn lemma_join_tail_split(toks: Seq<Seq<char>>, a: int, j: int, end: int)
    requires
        a <= j <= end,
    ensures
        join_tail(toks, a, end) == join_tail(toks, a, j) + join_tail(toks, j, end),
    decreases j - a,
{
    if a == j {
        assert(join_tail(toks, a, j) =~= Seq::<char>::empty());
        assert(join_tail(toks, a, end) =~= join_tail(toks, a, j) + join_tail(toks, j, end));
    } else {
        lemma_join_tail_split(toks, a + 1, j, end);
        assert(join_tail(toks, a, end) =~= join_tail(toks, a, j) + join_tail(toks, j, end));
    }
}

/// Compares a token against a literal, character by character.
pub fn str_is_str(t: &str, lit: &str) -> (r: bool)
    ensures
        r == (t@ == lit@),
{
    let n = t.unicode_len();
    let m = lit.unicode_len();
    if n != m {
        return false;
    }
    let mut i: usize = 0;
    while i < n
        invariant
            i <= n,
            n == t@.len(),
            n == lit@.len(),
            forall|j: int| 0 <= j < i ==> t@[j] == lit@[j],
        decreases n - i,
    {
        if t.get_char(i) != lit.get_char(i) {
            return false;
        }
        i = i + 1;
    }
    proof {
        assert(t@ =~= lit@);
    }
    true
}


/// A declaration collected while scanning the header: the flattened name,
/// its display format, the identifier code it reports changes under (none
/// for an annotation), and its declared bit width.
pub struct SpecDecl {
    pub name: Seq<char>,
    pub format: WaveFormat,
    pub code: Option<Seq<char>>,
    pub width: nat,
}

/// Everything the header declares: the signals in traversal order, the
/// native time base if declared, and the token position where the change
/// log begins.
pub struct HeaderInfo {
    pub decls: Seq<SpecDecl>,
    pub timescale: Option<SimTime>,
    pub body: int,
}

/// A time base built from a positive decimal magnitude and a unit name.
pub open spec fn spec_make_timescale(num: Seq<char>, unit: Seq<char>) -> Option<SimTime> {
    match spec_parse_u64(num) {
        Some(v) => {
            if v > 0 {
                match parse_unit(unit) {
                    Some(u) => Some(SimTime { value: v, unit: u }),
                    None => None,
                }
            } else {
                None
            }
        },
        None => None,
    }
}

/// Length of the run of digits a token starts with, from position `i`.
pub open spec fn digit_prefix_len(s: Seq<char>, i: int) -> int
    decreases s.len() - i,
{
    if i < 0 || i >= s.len() {
        s.len() as int
    } else if is_digit(s[i]) {
        digit_prefix_len(s, i + 1)
    } else {
        i
    }
}

/// The digit prefix ends at the first non-digit.
pub proof fn lemma_digit_prefix(s: Seq<char>, i: int)
    requires
        0 <= i <= s.len(),
    ensures
        i <= digit_prefix_len(s, i) <= s.len(),
        forall|j: int| i <= j < digit_prefix_len(s, i) ==> is_digit(#[trigger] s[j]),
        digit_prefix_len(s, i) < s.len() ==> !is_digit(s[digit_prefix_len(s, i)]),
    decreases s.len() - i,
{
    if i < s.len() && is_digit(s[i]) {
        lemma_digit_prefix(s, i + 1);
    }
}

/// The time base declared at a `$timescale` token: either a digit token
/// followed by a unit token, or one token holding both.
pub open spec fn spec_timescale_of(toks: Seq<Seq<char>>, i: int) -> Option<SimTime> {
    if i + 1 >= toks.len() {
        None
    } else {
        let t1 = toks[i + 1];
        if is_digits(t1) {
            if i + 2 >= toks.len() {
                None
            } else {
                spec_make_timescale(t1, toks[i + 2])
            }
        } else {
            let d = digit_prefix_len(t1, 0);
            if d == 0 || d >= t1.len() {
                None
            } else {
                spec_make_timescale(t1.take(d), t1.skip(d))
            }
        }
    }
}

/// A scope prefix without its trailing dot, as an annotation renders it.
pub open spec fn strip_dot(p: Seq<char>) -> Seq<char> {
    if p.len() > 0 && p.last() == '.' {
        p.drop_last()
    } else {
        p
    }
}

/// One pass over the header tokens, carrying the scope-prefix stack, the
/// current dotted prefix, the declarations found so far and the declared
/// time base.
///
/// A `$var` yields a value-carrying declaration named after the scope
/// prefix and its reference (plus a bracketed index token if one
/// follows); a `$comment` yields an annotation pseudo-signal at the point
/// it occurs; `$scope` and `$upscope` move the prefix; `$timescale` sets
/// the time base; any other `$`-word is passed over to its `$end`. The
/// scan fails on a malformed header: a truncated command, a bad width or
/// time base, an unmatched `$upscope`, a stray bare word, or a log that
/// ends before `$enddefinitions`.
pub open spec fn scan_header(
    toks: Seq<Seq<char>>,
    i: int,
    stack: Seq<Seq<char>>,
    prefix: Seq<char>,
    decls: Seq<SpecDecl>,
    timescale: Option<SimTime>,
) -> Option<HeaderInfo>
    decreases toks.len() - i,
    via scan_header_dec
{
    if i < 0 || i >= toks.len() {
        None
    } else {
        let tok = toks[i];
        if tok == "$enddefinitions"@ {
            Some(HeaderInfo { decls, timescale, body: skip_past_end(toks, i + 1) })
        } else if tok == "$scope"@ {
            if i + 2 >= toks.len() {
                None
            } else {
                scan_header(
                    toks,
                    skip_past_end(toks, i + 3),
                    stack.push(prefix),
                    prefix + toks[i + 2] + "."@,
                    decls,
                    timescale,
                )
            }
        } else if tok == "$upscope"@ {
            if stack.len() == 0 {
                None
            } else {
                scan_header(
                    toks,
                    skip_past_end(toks, i + 1),
                    stack.drop_last(),
                    stack.last(),
                    decls,
                    timescale,
                )
            }
        } else if tok == "$var"@ {
            if i + 4 >= toks.len() {
                None
            } else {
                match spec_parse_u64(toks[i + 2]) {
                    Some(w) => {
                        if w <= u32::MAX {
                            let base = prefix + toks[i + 4];
                            let name = if i + 5 < toks.len() && toks[i + 5].len() > 0 && toks[i
                                + 5][0] == '[' {
                                base + toks[i + 5]
                            } else {
                                base
                            };
                            let fmt = if w == 1 {
                                WaveFormat::Bit
                            } else {
                                WaveFormat::Vector(w as u32)
                            };
                            scan_header(
                                toks,
                                skip_past_end(toks, i + 5),
                                stack,
                                prefix,
                                decls.push(
                                    SpecDecl {
                                        name,
                                        format: fmt,
                                        code: Some(toks[i + 3]),
                                        width: w as nat,
                                    },
                                ),
                                timescale,
                            )
                        } else {
                            None
                        }
                    },
                    None => None,
                }
            }
        } else if tok == "$comment"@ {
            let e = find_end(toks, i + 1);
            let name = "-- "@ + strip_dot(prefix) + ": "@ + spec_join(toks, i + 1, e);
            scan_header(
                toks,
                skip_past_end(toks, i + 1),
                stack,
                prefix,
                decls.push(SpecDecl { name, format: WaveFormat::Comment, code: None, width: 0 }),
                timescale,
            )
        } else if tok == "$timescale"@ {
            match spec_timescale_of(toks, i) {
                Some(ts) => scan_header(
                    toks,
                    skip_past_end(toks, i + 1),
                    stack,
                    prefix,
                    decls,
                    Some(ts),
                ),
                None => None,
            }
        } else if tok.len() > 0 && tok[0] == '$' {
            scan_header(toks, skip_past_end(toks, i + 1), stack, prefix, decls, timescale)
        } else {
            None
        }
    }
}

#[via_fn]
proof fn scan_header_dec(
    toks: Seq<Seq<char>>,
    i: int,
    stack: Seq<Seq<char>>,
    prefix: Seq<char>,
    decls: Seq<SpecDecl>,
    timescale: Option<SimTime>,
) {
    if 0 <= i < toks.len() {
        lemma_find_end_bounds(toks, i + 1);
        if i + 2 < toks.len() {
            lemma_find_end_bounds(toks, i + 3);
        }
        if i + 4 < toks.len() {
            lemma_find_end_bounds(toks, i + 5);
        }
    }
}


/// Where scanning resumes after a header command's payload.
pub fn skip_past_end_exec(toks: &Vec<String>, i: usize) -> (r: usize)
    requires
        i <= toks@.len(),
    ensures
        r == skip_past_end(tok_views(toks@), i as int),
        i <= r <= toks@.len(),
{
    proof {
        lemma_find_end_bounds(tok_views(toks@), i as int);
    }
    let f = find_end_exec(toks, i);
    if f < toks.len() {
        f + 1
    } else {
        toks.len()
    }
}

/// Length of the digit run a token starts with.
fn digit_prefix_exec(t: &str) -> (r: usize)
    ensures
        r == digit_prefix_len(t@, 0),
        r <= t@.len(),
{
    let n = t.unicode_len();
    let mut j: usize = 0;
    while j < n
        invariant
            j <= n,
            n == t@.len(),
            digit_prefix_len(t@, 0) == digit_prefix_len(t@, j as int),
            forall|x: int| 0 <= x < j ==> is_digit(#[trigger] t@[x]),
        decreases n - j,
    {
        let c = t.get_char(j);
        let u = c as u32;
        if u < 48 || u > 57 {
            return j;
        }
        j = j + 1;
    }
    n
}

/// A time base from explicit magnitude and unit tokens.
fn make_timescale_exec(num: &str, unit: &str) -> (r: Option<SimTime>)
    ensures
        r == spec_make_timescale(num@, unit@),
{
    match parse_u64(num) {
        Some(v) => {
            if v > 0 {
                match SimTimeUnit::from_string(unit) {
                    Ok(u) => Some(SimTime::new(v, u)),
                    Err(_) => None,
                }
            } else {
                None
            }
        },
        None => None,
    }
}

/// The time base declared at a `$timescale` token.
pub fn timescale_of_exec(toks: &Vec<String>, i: usize) -> (r: Option<SimTime>)
    requires
        i < toks@.len(),
    ensures
        r == spec_timescale_of(tok_views(toks@), i as int),
{
    let nn = toks.len();
    if nn - i <= 1 {
        return None;
    }
    let t1 = toks[i + 1].as_str();
    let n1 = t1.unicode_len();
    let d = digit_prefix_exec(t1);
    proof {
        lemma_digit_prefix(t1@, 0);
        assert(tok_views(toks@)[i + 1] == t1@);
    }
    if n1 > 0 && d == n1 {
        proof {
            assert(is_digits(t1@));
        }
        if nn - i <= 2 {
            return None;
        }
        let r = make_timescale_exec(t1, toks[i + 2].as_str());
        proof {
            assert(tok_views(toks@)[i + 2] == toks@[i + 2]@);
        }
        r
    } else {
        proof {
            if is_digits(t1@) {
                assert(d < n1);
                assert(is_digit(t1@[d as int]));
            }
        }
        if d == 0 || d >= n1 {
            return None;
        }
        let num = t1.substring_char(0, d);
        let unit = t1.substring_char(d, n1);
        proof {
            assert(num@ =~= t1@.take(d as int));
            assert(unit@ =~= t1@.skip(d as int));
        }
        make_timescale_exec(num, unit)
    }
}

/// The header's content in executable form.
pub struct HeaderParse {
    pub signals: Vec<SignalDeclaration>,
    pub codes: Vec<Option<String>>,
    pub widths: Vec<u32>,
    pub timescale: Option<SimTime>,
    pub body: usize,
}

/// Correspondence between parsed declarations and the scanned ones.
pub open spec fn decls_match(
    signals: Seq<SignalDeclaration>,
    codes: Seq<Option<String>>,
    widths: Seq<u32>,
    decls: Seq<SpecDecl>,
) -> bool {
    &&& signals.len() == decls.len()
    &&& codes.len() == decls.len()
    &&& widths.len() == decls.len()
    &&& forall|j: int|
        0 <= j < decls.len() ==> {
            &&& (#[trigger] signals[j]).name@ == decls[j].name
            &&& signals[j].format == decls[j].format
            &&& (match codes[j] {
                Some(c) => decls[j].code matches Some(sc) && c@ == sc,
                None => decls[j].code is None,
            })
            &&& widths[j] as nat == decls[j].width
        }
}

/// Reads the header: the declarations in traversal order, the declared
/// time base, and where the change log begins. A malformed header is
/// rejected.
pub fn parse_header(toks: &Vec<String>) -> (r: Option<HeaderParse>)
    ensures
        (match r {
            Some(h) => {
                &&& scan_header(
                    tok_views(toks@),
                    0,
                    Seq::empty(),
                    Seq::empty(),
                    Seq::empty(),
                    None,
                ) matches Some(hi)
                &&& decls_match(h.signals@, h.codes@, h.widths@, hi.decls)
                &&& h.timescale == hi.timescale
                &&& h.body == hi.body
                &&& h.body <= toks@.len()
            },
            None => scan_header(
                tok_views(toks@),
                0,
                Seq::empty(),
                Seq::empty(),
                Seq::empty(),
                None,
            ) is None,
        }),
{
    let ghost v = tok_views(toks@);
    let n = toks.len();
    let mut signals: Vec<SignalDeclaration> = Vec::new();
    let mut codes: Vec<Option<String>> = Vec::new();
    let mut widths: Vec<u32> = Vec::new();
    let mut stack: Vec<String> = Vec::new();
    let mut prefix: String = String::new();
    let mut ts: Option<SimTime> = None;
    let ghost mut sdecls: Seq<SpecDecl> = Seq::empty();
    let mut i: usize = 0;
    proof {
        assert(tok_views(stack@) =~= Seq::<Seq<char>>::empty());
        assert(prefix@ =~= Seq::<char>::empty());
    }
    while i < n
        invariant
            i <= n,
            n == toks@.len(),
            v == tok_views(toks@),
            decls_match(signals@, codes@, widths@, sdecls),
            scan_header(v, i as int, tok_views(stack@), prefix@, sdecls, ts) == scan_header(
                v,
                0,
                Seq::empty(),
                Seq::empty(),
                Seq::empty(),
                None,
            ),
        decreases n - i,
    {
        let tok = &toks[i];
        proof {
            assert(v[i as int] == tok@);
        }
        if str_is(tok, "$enddefinitions") {
            let body = skip_past_end_exec(toks, i + 1);
            return Some(HeaderParse { signals, codes, widths, timescale: ts, body });
        } else if str_is(tok, "$scope") {
            if n - i <= 2 {
                return None;
            }
            let ghost stack0 = stack@;
            let ghost prefix0 = prefix@;
            let mut np = prefix.clone();
            np.append(toks[i + 2].as_str());
            np.append(".");
            stack.push(prefix);
            prefix = np;
            proof {
                assert(tok_views(stack@) =~= tok_views(stack0).push(prefix0));
            }
            i = skip_past_end_exec(toks, i + 3);
        } else if str_is(tok, "$upscope") {
            let ghost stack0 = stack@;
            match stack.pop() {
                Some(p) => {
                    prefix = p;
                },
                None => {
                    return None;
                },
            }
            proof {
                assert(tok_views(stack@) =~= tok_views(stack0).drop_last());
            }
            i = skip_past_end_exec(toks, i + 1);
        } else if str_is(tok, "$var") {
            if n - i <= 4 {
                return None;
            }
            match parse_u64(toks[i + 2].as_str()) {
                Some(w64) => {
                    if w64 > 0xffff_ffff {
                        return None;
                    }
                    let w: u32 = w64 as u32;
                    let mut name = prefix.clone();
                    name.append(toks[i + 4].as_str());
                    if n - i > 5 {
                        let t5 = toks[i + 5].as_str();
                        if t5.unicode_len() > 0 {
                            if t5.get_char(0) == '[' {
                                name.append(t5);
                            }
                        }
                    }
                    let fmt = if w == 1 {
                        WaveFormat::Bit
                    } else {
                        WaveFormat::Vector(w)
                    };
                    signals.push(SignalDeclaration { name, format: fmt });
                    codes.push(Some(toks[i + 3].clone()));
                    widths.push(w);
                    proof {
                        let base = prefix@ + v[i + 4];
                        let sname = if i + 5 < v.len() && v[i + 5].len() > 0 && v[i + 5][0]
                            == '[' {
                            base + v[i + 5]
                        } else {
                            base
                        };
                        sdecls = sdecls.push(
                            SpecDecl {
                                name: sname,
                                format: fmt,
                                code: Some(v[i + 3]),
                                width: w64 as nat,
                            },
                        );
                    }
                    i = skip_past_end_exec(toks, i + 5);
                },
                None => {
                    return None;
                },
            }
        } else if str_is(tok, "$comment") {
            let e = find_end_exec(toks, i + 1);
            let mut name = "-- ".to_owned();
            let pl = prefix.as_str().unicode_len();
            if pl > 0 {
                if prefix.as_str().get_char(pl - 1) == '.' {
                    let stripped = prefix.as_str().substring_char(0, pl - 1);
                    proof {
                        assert(stripped@ =~= strip_dot(prefix@));
                    }
                    name.append(stripped);
                } else {
                    name.append(prefix.as_str());
                }
            }
            name.append(": ");
            let mut j = i + 1;
            if j < e {
                name.append(toks[j].as_str());
                proof {
                    assert(v[j as int] == toks@[j as int]@);
                    assert(join_tail(v, j + 1, j + 1) =~= Seq::<char>::empty());
                    assert(name@ =~= "-- "@ + strip_dot(prefix@) + ": "@ + (v[i + 1] + join_tail(
                        v,
                        i + 2,
                        j + 1,
                    )));
                }
                j = j + 1;
                while j < e
                    invariant
                        i + 1 < j <= e,
                        e <= n,
                        n == toks@.len(),
                        v == tok_views(toks@),
                        name@ == "-- "@ + strip_dot(prefix@) + ": "@ + (v[i + 1] + join_tail(
                            v,
                            i + 2,
                            j as int,
                        )),
                    decreases e - j,
                {
                    name.append(" ");
                    name.append(toks[j].as_str());
                    proof {
                        lemma_join_tail_split(v, i + 2, j as int, j + 1);
                        assert(join_tail(v, j + 1, j + 1) =~= Seq::<char>::empty());
                        assert(join_tail(v, j as int, j + 1) =~= " "@ + v[j as int]);
                        assert(name@ =~= "-- "@ + strip_dot(prefix@) + ": "@ + (v[i + 1]
                            + join_tail(v, i + 2, j + 1)));
                    }
                    j = j + 1;
                }
            }
            proof {
                assert(name@ =~= "-- "@ + strip_dot(prefix@) + ": "@ + spec_join(
                    v,
                    i + 1,
                    e as int,
                ));
            }
            signals.push(SignalDeclaration { name, format: WaveFormat::Comment });
            codes.push(None);
            widths.push(0);
            proof {
                sdecls = sdecls.push(
                    SpecDecl {
                        name: "-- "@ + strip_dot(prefix@) + ": "@ + spec_join(
                            v,
                            i + 1,
                            find_end(v, i + 1),
                        ),
                        format: WaveFormat::Comment,
                        code: None,
                        width: 0,
                    },
                );
            }
            i = skip_past_end_exec(toks, i + 1);
        } else if str_is(tok, "$timescale") {
            match timescale_of_exec(toks, i) {
                Some(t) => {
                    ts = Some(t);
                },
                None => {
                    return None;
                },
            }
            i = skip_past_end_exec(toks, i + 1);
        } else {
            let t0 = tok.as_str();
            if t0.unicode_len() > 0 {
                if t0.get_char(0) == '$' {
                    i = skip_past_end_exec(toks, i + 1);
                } else {
                    return None;
                }
            } else {
                return None;
            }
        }
    }
    None
}

} // verus!
