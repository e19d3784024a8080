//! Reading what the media probe prints.
use vstd::prelude::*;
use vstd::string::StrSliceExecFns;

use crate::text::{decimal_spec, digit_run, digit_run_end};

verus! {

/// The probe's answer could not be read as a number.
#[derive(Clone, Copy, Debug, PartialEq, Eq)]
pub enum ProbeError {
    NotANumber,
}

/// The characters that Unicode calls white space, as `char::is_whitespace`
/// documents them.
pub open spec fn is_space(c: char) -> bool {
    ('\u{9}' <= c && c <= '\u{d}') || c == ' ' || c == '\u{85}' || c == '\u{a0}' || c
        == '\u{1680}' || ('\u{2000}' <= c && c <= '\u{200a}') || c == '\u{2028}' || c
        == '\u{2029}' || c == '\u{202f}' || c == '\u{205f}' || c == '\u{3000}'
}

/// Whether `c` is white space; the same set as `is_space`.
fn is_space_char(c: char) -> (r: bool)
    ensures
        r == is_space(c),
{
    ('\u{9}' <= c && c <= '\u{d}') || c == ' ' || c == '\u{85}' || c == '\u{a0}' || c
        == '\u{1680}' || ('\u{2000}' <= c && c <= '\u{200a}') || c == '\u{2028}' || c
        == '\u{2029}' || c == '\u{202f}' || c == '\u{205f}' || c == '\u{3000}'
}

pub open spec fn all_spaces(s: Seq<char>) -> bool {
    forall|i: int| 0 <= i < s.len() ==> is_space(#[trigger] s[i])
}

/// The length of the run of blanks that `s` starts with.
pub open spec fn space_run(s: Seq<char>) -> nat
    decreases s.len(),
{
    if s.len() > 0 && is_space(s[0]) {
        1 + space_run(s.subrange(1, s.len() as int))
    } else {
        0
    }
}

/// The frame count that a probe printed: a decimal number, optionally with a
/// leading `+`, with white space around it.
pub open spec fn frame_count_spec(s: Seq<char>) -> Option<u64> {
    let u = s.subrange(space_run(s) as int, s.len() as int);
    let t = if u.len() > 0 && u[0] == '+' {
        u.subrange(1, u.len() as int)
    } else {
        u
    };
    let k = digit_run(t);
    if all_spaces(t.subrange(k as int, t.len() as int)) {
        decimal_spec(t.subrange(0, k as int))
    } else {
        None
    }
}

proof fn lemma_space_run(s: Seq<char>)
    ensures
        space_run(s) <= s.len(),
        space_run(s) == s.len() <==> all_spaces(s),
    decreases s.len(),
{
    if s.len() > 0 && is_space(s[0]) {
        let rest = s.subrange(1, s.len() as int);
        lemma_space_run(rest);
        if all_spaces(s) {
            assert forall|j: int| 0 <= j < rest.len() implies is_space(#[trigger] rest[j]) by {
                assert(rest[j] == s[j + 1]);
            }
        }
        if all_spaces(rest) {
            assert forall|j: int| 0 <= j < s.len() implies is_space(#[trigger] s[j]) by {
                if j > 0 {
                    assert(s[j] == rest[j - 1]);
                }
            }
        }
    }
}

/// The end of the run of blanks in `s` that starts at `from`.
fn space_run_end(s: &str, from: usize) -> (r: usize)
    requires
        from <= s@.len(),
    ensures
        r == from + space_run(s@.subrange(from as int, s@.len() as int)),
        r <= s@.len(),
{
    let n = s.unicode_len();
    let mut i: usize = from;
    while i < n
        invariant
            n == s@.len(),
            from <= i <= n,
            space_run(s@.subrange(from as int, n as int)) == (i - from) + space_run(
                s@.subrange(i as int, n as int),
            ),
        decreases n - i,
    {
        let c = s.get_char(i);
        if !is_space_char(c) {
            return i;
        }
        assert(s@.subrange(i as int, n as int).subrange(1, n - i) =~= s@.subrange(i + 1, n as int));
        i = i + 1;
    }
    i
}

/// Reads the frame count that a probe printed.
pub fn parse_frame_count(s: &str) -> (r: Result<u64, ProbeError>)
    ensures
        r matches Ok(v) ==> frame_count_spec(s@) == Some(v),
        r is Err <==> frame_count_spec(s@) is None,
{
    let n = s.unicode_len();
    let a = space_run_end(s, 0);
    let ghost u = s@.subrange(a as int, n as int);
    let p: usize = if a < n && s.get_char(a) == '+' {
        a + 1
    } else {
        a
    };
    let b = digit_run_end(s, p);
    let e = space_run_end(s, b);
    let ghost t = s@.subrange(p as int, n as int);
    proof {
        assert(s@.subrange(0, n as int) =~= s@);
        if p == a + 1 {
            assert(u.subrange(1, u.len() as int) =~= t);
        }
        assert(t.subrange((b - p) as int, t.len() as int) =~= s@.subrange(b as int, n as int));
        assert(t.subrange(0, (b - p) as int) =~= s@.subrange(p as int, b as int));
        lemma_space_run(s@.subrange(b as int, n as int));
    }
    if e != n {
        return Err(ProbeError::NotANumber);
    }
    match crate::text::parse_decimal(s, p, b) {
        Some(v) => Ok(v),
        None => Err(ProbeError::NotANumber),
    }
}

} // verus!
