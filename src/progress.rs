//! Reading the encoder's line-oriented progress stream into samples.
use vstd::prelude::*;
use vstd::string::StrSliceExecFns;

use crate::text::{
    all_digits, digit_run, digit_run_end, digits_value, has_prefix, is_digit, lemma_digit_run, lemma_digits_value_prefix, lemma_pow10_add,
    lemma_pow10_large, lemma_pow10_positive, parse_decimal, parse_unsigned, pow10, shifted_floor,
    unsigned_spec,
    starts_with,
};

verus! {

/// One reading of the encoder's progress: the frame it has reached and its
/// speed in whole frames per second.
#[derive(Clone, Copy, Debug, PartialEq, Eq)]
pub struct ProgressSample {
    pub frame: u64,
    pub fps: u64,
}

/// What one line of the progress stream says.
#[derive(Clone, Copy, Debug, PartialEq, Eq)]
pub enum LineReading {
    /// `frame=<digits>`, optionally with a `+` before the digits
    Frame(u64),
    /// `fps=` and a decimal number, the fraction dropped
    Fps(u64),
    /// `frame=` or `fps=` followed by something that is not such a number
    Malformed,
    /// any other line
    Other,
}

/// A line whose key is known but whose value could not be read. The line is
/// skipped; the stream goes on.
#[derive(Clone, Copy, Debug, PartialEq, Eq)]
pub struct ParseWarning;

pub open spec fn frame_key() -> Seq<char> {
    seq!['f', 'r', 'a', 'm', 'e', '=']
}

pub open spec fn fps_key() -> Seq<char> {
    seq!['f', 'p', 's', '=']
}

/// The exponent that `x` writes: nothing, which is zero, or `e` or `E`, an
/// optional sign and digits.
pub open spec fn exponent_spec(x: Seq<char>) -> Option<int> {
    if x.len() == 0 {
        Some(0)
    } else if x[0] == 'e' || x[0] == 'E' {
        let y = x.subrange(1, x.len() as int);
        let signed = y.len() > 0 && (y[0] == '-' || y[0] == '+');
        let z = if signed {
            y.subrange(1, y.len() as int)
        } else {
            y
        };
        if z.len() > 0 && all_digits(z) {
            if signed && y[0] == '-' {
                Some(-(digits_value(z) as int))
            } else {
                Some(digits_value(z) as int)
            }
        } else {
            None
        }
    } else {
        None
    }
}

/// The digits of the number in `t` without its dot: the `k` digits before
/// it and the `f` after it, where the fraction starts at `fs`.
pub open spec fn mantissa(t: Seq<char>, k: int, fs: int, f: int) -> Seq<char> {
    t.subrange(0, k) + t.subrange(fs, fs + f)
}

/// The whole frames per second that `t0` writes, truncated toward zero: an
/// optional `+`, digits with an optional dot and fraction (one of the two
/// holding a digit), and an optional exponent. A value beyond 64 bits is not
/// read.
pub open spec fn fps_value_spec(t0: Seq<char>) -> Option<u64> {
    let t = if t0.len() > 0 && t0[0] == '+' {
        t0.subrange(1, t0.len() as int)
    } else {
        t0
    };
    let k = digit_run(t) as int;
    let fs = if k < t.len() && t[k] == '.' {
        k + 1
    } else {
        k
    };
    let f = digit_run(t.subrange(fs, t.len() as int)) as int;
    match exponent_spec(t.subrange(fs + f, t.len() as int)) {
        Some(e) => {
            let v = shifted_floor(mantissa(t, k, fs, f), k + e);
            if k + f >= 1 && v <= u64::MAX {
                Some(v as u64)
            } else {
                None
            }
        },
        None => None,
    }
}

/// What line `l` says.
pub open spec fn line_reading(l: Seq<char>) -> LineReading {
    if starts_with(l, frame_key()) {
        match unsigned_spec(l.subrange(6, l.len() as int)) {
            Some(v) => LineReading::Frame(v),
            None => LineReading::Malformed,
        }
    } else if starts_with(l, fps_key()) {
        match fps_value_spec(l.subrange(4, l.len() as int)) {
            Some(v) => LineReading::Fps(v),
            None => LineReading::Malformed,
        }
    } else {
        LineReading::Other
    }
}

/// The bound above which an exponent is not tracked exactly.
const EXPONENT_CAP: u128 = 1000000000000000000000000000000;

/// Reads the digits `s[from..to]` of an exponent, exactly up to the cap.
fn read_exponent(s: &str, from: usize, to: usize) -> (r: u128)
    requires
        from <= to <= s@.len(),
        all_digits(s@.subrange(from as int, to as int)),
    ensures
        r <= EXPONENT_CAP ==> r == digits_value(s@.subrange(from as int, to as int)),
        r > EXPONENT_CAP ==> digits_value(s@.subrange(from as int, to as int)) > EXPONENT_CAP,
{
    let mut acc: u128 = 0;
    let mut i: usize = from;
    while i < to
        invariant
            from <= i <= to <= s@.len(),
            all_digits(s@.subrange(from as int, to as int)),
            acc <= 10 * EXPONENT_CAP + 9,
            acc <= EXPONENT_CAP ==> acc == digits_value(s@.subrange(from as int, i as int)),
            acc > EXPONENT_CAP ==> digits_value(s@.subrange(from as int, i as int)) > EXPONENT_CAP,
        decreases to - i,
    {
        let c = s.get_char(i);
        assert(s@.subrange(from as int, i + 1).drop_last() =~= s@.subrange(from as int, i as int));
        assert(s@.subrange(from as int, to as int)[i - from] == c);
        if acc <= EXPONENT_CAP {
            acc = acc * 10 + (c as u32 - '0' as u32) as u128;
        }
        i = i + 1;
    }
    acc
}

/// Reads the first `q` digits of the mantissa of `t = line[start..]`, whose
/// whole part ends at `k_end` and whose fraction runs from `fs` to `f_end`.
fn read_mantissa(line: &str, start: usize, k_end: usize, fs: usize, f_end: usize, q: usize) -> (r:
    Option<u64>)
    requires
        start <= k_end <= fs <= f_end <= line@.len(),
        fs <= k_end + 1,
        all_digits(line@.subrange(start as int, k_end as int)),
        all_digits(line@.subrange(fs as int, f_end as int)),
        q <= (k_end - start) + (f_end - fs),
    ensures
        ({
            let m = mantissa(
                line@.subrange(start as int, line@.len() as int),
                k_end - start,
                fs - start,
                f_end - fs,
            ).subrange(0, q as int);
            r == if digits_value(m) <= u64::MAX {
                Some(digits_value(m) as u64)
            } else {
                None::<u64>
            }
        }),
{
    let ghost t = line@.subrange(start as int, line@.len() as int);
    let ghost m = mantissa(t, k_end - start, fs - start, f_end - fs);
    let kk: usize = k_end - start;
    assert(t.subrange(0, kk as int) =~= line@.subrange(start as int, k_end as int));
    assert(t.subrange(fs - start, fs - start + (f_end - fs)) =~= line@.subrange(fs as int, f_end as int));
    assert forall|j: int| 0 <= j < m.len() implies is_digit(#[trigger] m[j]) by {
        if j < kk {
            assert(m[j] == line@.subrange(start as int, k_end as int)[j]);
        } else {
            assert(m[j] == line@.subrange(fs as int, f_end as int)[j - kk]);
        }
    }
    let mut acc: u64 = 0;
    let mut i: usize = 0;
    while i < q
        invariant
            i <= q <= m.len(),
            kk == k_end - start,
            m == mantissa(t, k_end - start, fs - start, f_end - fs),
            t == line@.subrange(start as int, line@.len() as int),
            start <= k_end <= fs <= f_end <= line@.len(),
            forall|j: int| 0 <= j < m.len() ==> is_digit(#[trigger] m[j]),
            acc == digits_value(m.subrange(0, i as int)),
        decreases q - i,
    {
        let pos: usize = if i < kk {
            start + i
        } else {
            fs + (i - kk)
        };
        let c = line.get_char(pos);
        assert(m[i as int] == c);
        assert(m.subrange(0, i + 1).drop_last() =~= m.subrange(0, i as int));
        let d: u64 = (c as u32 - '0' as u32) as u64;
        if acc > (u64::MAX - d) / 10 {
            proof {
                assert(digits_value(m.subrange(0, i + 1)) > u64::MAX) by (nonlinear_arith)
                    requires
                        digits_value(m.subrange(0, i + 1)) == acc * 10 + d,
                        acc > (u64::MAX - d) / 10,
                        d <= 9,
                ;
                lemma_digits_value_prefix(m, i + 1, q as int);
            }
            return None;
        }
        assert(acc * 10 + d <= u64::MAX) by (nonlinear_arith)
            requires
                acc <= (u64::MAX - d) / 10,
                d <= 9,
        ;
        acc = acc * 10 + d;
        i = i + 1;
    }
    Some(acc)
}

/// `v` times ten to the power `rem`, where it fits in 64 bits.
fn scale(v: u64, rem: u128) -> (r: Option<u64>)
    ensures
        r == if v * pow10(rem as nat) <= u64::MAX {
            Some((v * pow10(rem as nat)) as u64)
        } else {
            None::<u64>
        },
{
    let mut acc: u64 = v;
    let mut j: u128 = 0;
    assert(pow10(0) == 1);
    assert(v * 1 == v);
    while j < rem
        invariant
            j <= rem,
            acc == v * pow10(j as nat),
        decreases rem - j,
    {
        proof {
            lemma_pow10_add(j as nat, (rem - j) as nat);
            lemma_pow10_positive((rem - j) as nat);
            assert(v * pow10(rem as nat) == acc * pow10((rem - j) as nat)) by (nonlinear_arith)
                requires
                    pow10(rem as nat) == pow10(j as nat) * pow10((rem - j) as nat),
                    acc == v * pow10(j as nat),
            ;
        }
        if acc == 0 {
            assert(acc * pow10((rem - j) as nat) == 0) by (nonlinear_arith)
                requires
                    acc == 0,
            ;
            return Some(0);
        }
        if acc > u64::MAX / 10 {
            proof {
                assert(acc * pow10((rem - j) as nat) > u64::MAX) by (nonlinear_arith)
                    requires
                        acc > u64::MAX / 10,
                        pow10((rem - j) as nat) >= 10,
                ;
            }
            return None;
        }
        proof {
            assert(pow10((j + 1) as nat) == 10 * pow10(j as nat));
            assert(v * (10 * pow10(j as nat)) == (v * pow10(j as nat)) * 10) by (nonlinear_arith);
        }
        acc = acc * 10;
        j = j + 1;
    }
    Some(acc)
}

/// Reads the value of an `fps=` line from position 4 on.
#[verifier::rlimit(100)]
fn read_fps(line: &str) -> (r: Option<u64>)
    requires
        4 <= line@.len(),
    ensures
        r == fps_value_spec(line@.subrange(4, line@.len() as int)),
{
    let n = line.unicode_len();
    let ghost t0 = line@.subrange(4, n as int);
    let start: usize = if n > 4 && line.get_char(4) == '+' {
        5
    } else {
        4
    };
    let ghost t = line@.subrange(start as int, n as int);
    proof {
        if start == 5 {
            assert(t0.subrange(1, t0.len() as int) =~= t);
        }
    }
    let k_end = digit_run_end(line, start);
    proof {
        lemma_digit_run(t);
        assert(t.subrange(0, k_end - start) =~= line@.subrange(start as int, k_end as int));
    }
    let fs: usize = if k_end < n && line.get_char(k_end) == '.' {
        k_end + 1
    } else {
        k_end
    };
    assert(k_end < n ==> t[k_end - start] == line@[k_end as int]);
    let f_end = digit_run_end(line, fs);
    proof {
        assert(t.subrange(fs - start, t.len() as int) =~= line@.subrange(fs as int, n as int));
        lemma_digit_run(line@.subrange(fs as int, n as int));
        assert(line@.subrange(fs as int, n as int).subrange(0, f_end - fs) =~= line@.subrange(
            fs as int,
            f_end as int,
        ));
        assert(t.subrange(f_end - start, t.len() as int) =~= line@.subrange(f_end as int, n as int));
    }
    if k_end == start && f_end == fs {
        return None;
    }
    let ghost x = line@.subrange(f_end as int, n as int);
    match read_exponent_part(line, f_end) {
        None => None,
        Some((negative, e)) => {
            let ghost ev: int = exponent_spec(x).unwrap();
            fps_from_parts(line, start, k_end, fs, f_end, negative, e, Ghost(ev))
        },
    }
}

/// Whether `e`, with its sign `negative`, stands for the exponent `ev`:
/// exactly up to the cap, and beyond it by its sign alone.
spec fn exponent_matches(negative: bool, e: u128, ev: int) -> bool {
    &&& e <= EXPONENT_CAP ==> ev == if negative { -(e as int) } else { e as int }
    &&& e > EXPONENT_CAP && negative ==> ev < -EXPONENT_CAP
    &&& e > EXPONENT_CAP && !negative ==> ev > EXPONENT_CAP
}

/// Reads the exponent that `line[from..]` writes, if any.
fn read_exponent_part(line: &str, from: usize) -> (r: Option<(bool, u128)>)
    requires
        from <= line@.len(),
    ensures
        ({
            let x = line@.subrange(from as int, line@.len() as int);
            &&& r is None <==> exponent_spec(x) is None
            &&& r matches Some((negative, e)) ==> exponent_matches(negative, e, exponent_spec(x).unwrap())
        }),
{
    let n = line.unicode_len();
    let ghost x = line@.subrange(from as int, n as int);
    if from == n {
        return Some((false, 0));
    }
    let c = line.get_char(from);
    assert(x[0] == c);
    if c != 'e' && c != 'E' {
        return None;
    }
    let ghost y = x.subrange(1, x.len() as int);
    assert(y =~= line@.subrange(from + 1, n as int));
    let mut negative = false;
    let mut ds: usize = from + 1;
    if ds < n {
        let c2 = line.get_char(ds);
        assert(y[0] == c2);
        if c2 == '-' {
            negative = true;
            ds = ds + 1;
        } else if c2 == '+' {
            ds = ds + 1;
        }
    }
    let ghost z = line@.subrange(ds as int, n as int);
    assert(ds == from + 2 ==> y.subrange(1, y.len() as int) =~= z);
    if ds == n {
        return None;
    }
    let de = digit_run_end(line, ds);
    proof {
        lemma_digit_run(z);
        assert(line@.subrange(ds as int, n as int).subrange(0, n - ds) =~= z);
    }
    if de != n {
        return None;
    }
    let e = read_exponent(line, ds, n);
    Some((negative, e))
}

/// The whole part of the number whose digits run from `start` to `k_end`
/// and, after the dot, from `fs` to `f_end`, times ten to the power `ev`,
/// where it fits in 64 bits. `e` is the magnitude of `ev` up to the cap.
fn fps_from_parts(
    line: &str,
    start: usize,
    k_end: usize,
    fs: usize,
    f_end: usize,
    negative: bool,
    e: u128,
    ev: Ghost<int>,
) -> (r: Option<u64>)
    requires
        start <= k_end <= fs <= f_end <= line@.len(),
        fs <= k_end + 1,
        all_digits(line@.subrange(start as int, k_end as int)),
        all_digits(line@.subrange(fs as int, f_end as int)),
        exponent_matches(negative, e, ev@),
    ensures
        ({
            let m = mantissa(
                line@.subrange(start as int, line@.len() as int),
                k_end - start,
                fs - start,
                f_end - fs,
            );
            let v = shifted_floor(m, (k_end - start) + ev@);
            r == if v <= u64::MAX {
                Some(v as u64)
            } else {
                None::<u64>
            }
        }),
{
    let ghost t = line@.subrange(start as int, line@.len() as int);
    let kk: usize = k_end - start;
    let total: usize = kk + (f_end - fs);
    let ghost d = mantissa(t, kk as int, fs - start, f_end - fs);
    assert(d.len() == total);
    assert(d.subrange(0, total as int) =~= d);
    if e > EXPONENT_CAP {
        if negative {
            return Some(0);
        }
        let ghost rem = (kk + ev@ - total) as nat;
        let whole = read_mantissa(line, start, k_end, fs, f_end, total);
        proof {
            lemma_pow10_positive(rem);
            lemma_pow10_large(rem);
        }
        match whole {
            None => {
                assert(digits_value(d) * pow10(rem) >= digits_value(d)) by (nonlinear_arith)
                    requires
                        pow10(rem) >= 1,
                ;
                return None;
            },
            Some(v) => {
                if v == 0 {
                    assert(0 * pow10(rem) == 0);
                    return Some(0);
                }
                assert(v * pow10(rem) >= pow10(rem)) by (nonlinear_arith)
                    requires
                        v >= 1,
                ;
                return None;
            },
        }
    }
    let p: i128 = if negative {
        kk as i128 - e as i128
    } else {
        kk as i128 + e as i128
    };
    if p <= 0 {
        return Some(0);
    }
    if p <= total as i128 {
        return read_mantissa(line, start, k_end, fs, f_end, p as usize);
    }
    match read_mantissa(line, start, k_end, fs, f_end, total) {
        None => {
            proof {
                lemma_pow10_positive((p - total) as nat);
                assert(digits_value(d) * pow10((p - total) as nat) >= digits_value(d)) by (nonlinear_arith)
                    requires
                        pow10((p - total) as nat) >= 1,
                ;
            }
            None
        },
        Some(v) => scale(v, (p - total as i128) as u128),
    }
}

/// Reads one line of the progress stream.
pub fn read_line(line: &str) -> (r: LineReading)
    ensures
        r == line_reading(line@),
{
    proof {
        reveal_strlit("frame=");
        reveal_strlit("fps=");
    }
    assert("frame="@ =~= frame_key());
    assert("fps="@ =~= fps_key());
    if has_prefix(line, "frame=") {
        let n = line.unicode_len();
        match parse_unsigned(line, 6, n) {
            Some(v) => LineReading::Frame(v),
            None => LineReading::Malformed,
        }
    } else if has_prefix(line, "fps=") {
        match read_fps(line) {
            Some(v) => LineReading::Fps(v),
            None => LineReading::Malformed,
        }
    } else {
        LineReading::Other
    }
}

/// Gathers `frame=` and `fps=` lines into samples. A sample is complete once
/// both values are non-zero; it is then handed out and both are cleared.
#[derive(Clone, Copy, Debug, PartialEq, Eq)]
pub struct ProgressParser {
    pub frame: u64,
    pub fps: u64,
}

/// The parser after a reading, and the sample it completes, if any.
pub open spec fn feed_spec(p: ProgressParser, r: LineReading) -> (ProgressParser, Option<ProgressSample>) {
    let q = match r {
        LineReading::Frame(v) => ProgressParser { frame: v, ..p },
        LineReading::Fps(v) => ProgressParser { fps: v, ..p },
        _ => p,
    };
    if (r is Frame || r is Fps) && q.frame != 0 && q.fps != 0 {
        (ProgressParser { frame: 0, fps: 0 }, Some(ProgressSample { frame: q.frame, fps: q.fps }))
    } else {
        (q, None)
    }
}

impl ProgressParser {
    /// A parser that holds nothing yet.
    pub fn new() -> (r: ProgressParser)
        ensures
            r.frame == 0 && r.fps == 0,
    {
        ProgressParser { frame: 0, fps: 0 }
    }

    /// Takes in one line. A line with a known key and a value that cannot be
    /// read is skipped with a warning and changes nothing.
    pub fn feed(&mut self, line: &str) -> (r: Result<Option<ProgressSample>, ParseWarning>)
        ensures
            line_reading(line@) is Malformed ==> r is Err && *final(self) == *old(self),
            !(line_reading(line@) is Malformed) ==> r == Ok::<Option<ProgressSample>, ParseWarning>(
                feed_spec(*old(self), line_reading(line@)).1,
            ) && *final(self) == feed_spec(*old(self), line_reading(line@)).0,
    {
        let reading = read_line(line);
        match reading {
            LineReading::Malformed => {
                return Err(ParseWarning);
            },
            LineReading::Frame(v) => {
                self.frame = v;
            },
            LineReading::Fps(v) => {
                self.fps = v;
            },
            LineReading::Other => {
                return Ok(None);
            },
        }
        if self.frame != 0 && self.fps != 0 {
            let sample = ProgressSample { frame: self.frame, fps: self.fps };
            self.frame = 0;
            self.fps = 0;
            Ok(Some(sample))
        } else {
            Ok(None)
        }
    }
}

/// How the progress stream is shown.
#[derive(Clone, Copy, Debug, PartialEq, Eq)]
pub enum ProgressMode {
    /// Lines are read for samples, which the status block shows.
    Parse,
    /// Lines are shown as they come, unread.
    PassThrough,
}

/// What to show for one line of the progress stream.
#[derive(Clone, Copy, Debug, PartialEq, Eq)]
pub enum Shown {
    /// Nothing yet.
    Nothing,
    /// The line itself.
    Line,
    /// The status block of a completed sample.
    Sample(ProgressSample),
    /// Nothing: the line's value could not be read and it was skipped.
    Skipped,
}

impl ProgressParser {
    /// Takes in one line in `mode`. In pass-through mode the line is shown and
    /// the parser is left as it was.
    pub fn interpret(&mut self, mode: ProgressMode, line: &str) -> (r: Shown)
        ensures
            mode == ProgressMode::PassThrough ==> r == Shown::Line && *final(self) == *old(self),
            mode == ProgressMode::Parse && line_reading(line@) is Malformed ==> r == Shown::Skipped
                && *final(self) == *old(self),
            mode == ProgressMode::Parse && !(line_reading(line@) is Malformed) ==> *final(self)
                == feed_spec(*old(self), line_reading(line@)).0 && r == match feed_spec(
                *old(self),
                line_reading(line@),
            ).1 {
                Some(sample) => Shown::Sample(sample),
                None => Shown::Nothing,
            },
    {
        match mode {
            ProgressMode::PassThrough => Shown::Line,
            ProgressMode::Parse => match self.feed(line) {
                Err(_) => Shown::Skipped,
                Ok(Some(sample)) => Shown::Sample(sample),
                Ok(None) => Shown::Nothing,
            },
        }
    }
}

/// Whether feeding `lines` in order to `p` hands out a sample at some line.
pub open spec fn emits_within(p: ProgressParser, lines: Seq<Seq<char>>) -> bool
    decreases lines.len(),
{
    if lines.len() == 0 {
        false
    } else {
        let (q, out) = feed_spec(p, line_reading(lines[0]));
        out is Some || emits_within(q, lines.drop_first())
    }
}

/// Whether one of `lines` is a `frame=` line.
pub open spec fn has_frame_line(lines: Seq<Seq<char>>) -> bool {
    exists|i: int| 0 <= i < lines.len() && (#[trigger] line_reading(lines[i])) is Frame
}

/// Whether one of `lines` is an `fps=` line.
pub open spec fn has_fps_line(lines: Seq<Seq<char>>) -> bool {
    exists|i: int| 0 <= i < lines.len() && (#[trigger] line_reading(lines[i])) is Fps
}

/// Whether none of `lines` sets a value to zero.
pub open spec fn no_zero_values(lines: Seq<Seq<char>>) -> bool {
    forall|i: int|
        0 <= i < lines.len() ==> {
            let r = #[trigger] line_reading(lines[i]);
            r != LineReading::Frame(0) && r != LineReading::Fps(0)
        }
}

/// From any state that has not both values, a sequence of lines with no zero
/// value completes a sample exactly when, counting what is already held, both
/// a frame and an fps value have come.
pub proof fn lemma_emits_within(p: ProgressParser, lines: Seq<Seq<char>>)
    requires
        !(p.frame != 0 && p.fps != 0),
        no_zero_values(lines),
    ensures
        emits_within(p, lines) <==> (p.frame != 0 || has_frame_line(lines)) && (p.fps != 0
            || has_fps_line(lines)),
    decreases lines.len(),
{
    if lines.len() > 0 {
        let rest = lines.drop_first();
        let r0 = line_reading(lines[0]);
        let q = feed_spec(p, r0).0;
        assert(r0 != LineReading::Frame(0) && r0 != LineReading::Fps(0));
        assert forall|i: int| 0 <= i < rest.len() implies {
            let r = #[trigger] line_reading(rest[i]);
            r != LineReading::Frame(0) && r != LineReading::Fps(0)
        } by {
            assert(rest[i] == lines[i + 1]);
        }
        if feed_spec(p, r0).1 is None {
            lemma_emits_within(q, rest);
        }
        if has_frame_line(lines) && !(r0 is Frame) {
            let i = choose|i: int| 0 <= i < lines.len() && (#[trigger] line_reading(lines[i])) is Frame;
            assert(rest[i - 1] == lines[i]);
            assert(has_frame_line(rest));
        }
        if has_fps_line(lines) && !(r0 is Fps) {
            let i = choose|i: int| 0 <= i < lines.len() && (#[trigger] line_reading(lines[i])) is Fps;
            assert(rest[i - 1] == lines[i]);
            assert(has_fps_line(rest));
        }
        if has_frame_line(rest) {
            let i = choose|i: int| 0 <= i < rest.len() && (#[trigger] line_reading(rest[i])) is Frame;
            assert(rest[i] == lines[i + 1]);
            assert(line_reading(lines[i + 1]) is Frame);
        }
        if has_fps_line(rest) {
            let i = choose|i: int| 0 <= i < rest.len() && (#[trigger] line_reading(rest[i])) is Fps;
            assert(rest[i] == lines[i + 1]);
            assert(line_reading(lines[i + 1]) is Fps);
        }
        if r0 is Frame {
            assert(line_reading(lines[0]) is Frame);
        }
        if r0 is Fps {
            assert(line_reading(lines[0]) is Fps);
        }
    }
}

/// From a parser that holds nothing, as when it is new or has just handed out
/// a sample, a sequence of lines with no zero value completes a sample exactly
/// when it holds both a `frame=` line and an `fps=` line, in either order.
pub proof fn lemma_sample_needs_both(lines: Seq<Seq<char>>)
    requires
        no_zero_values(lines),
    ensures
        emits_within(ProgressParser { frame: 0, fps: 0 }, lines) <==> has_frame_line(lines)
            && has_fps_line(lines),
{
    lemma_emits_within(ProgressParser { frame: 0, fps: 0 }, lines);
}

} // verus!
