//! Bitrates from a size budget, and how they shrink between attempts.
use vstd::prelude::*;

verus! {

/// Bits per second that a budget of `size_kb` decimal kilobytes allows over
/// `duration_ms` milliseconds. This is `size_mb * 8192 / seconds` kilobits per
/// second at 1024 bits per kilobit, rounded down.
pub open spec fn budget_bps(size_kb: nat, duration_ms: nat) -> nat {
    if duration_ms == 0 {
        0
    } else {
        size_kb * 8192 * 1024 / duration_ms
    }
}

/// The largest size budget, in decimal kilobytes, whose bitrate fits in 64 bits.
pub const MAX_SIZE_KB: u64 = 2199023255551;

/// The largest audio bitrate, in bits per second, that a plan can hold.
pub const MAX_AUDIO_BPS: u64 = 9223372036854775807;

/// The two bitrates of one attempt, in bits per second.
#[derive(Clone, Copy, Debug, PartialEq, Eq)]
pub struct BitratePlan {
    pub video_bps: u64,
    pub audio_bps: u64,
}

/// The plan for the first attempt. The video stream gets the budget minus the
/// audio. Where the audio alone exceeds the budget, the video gets the whole
/// budget and the audio is raised by the shortfall.
pub open spec fn initial_plan_spec(size_kb: nat, duration_ms: nat, audio_bps: nat) -> (nat, nat) {
    let b = budget_bps(size_kb, duration_ms);
    let a = audio_bps;
    if b >= a {
        ((b - a) as nat, a)
    } else {
        (b, (a + (a - b)) as nat)
    }
}

/// The video bitrate of the next attempt: 95% of the current one, rounded down.
pub open spec fn shrink_spec(video_bps: nat) -> nat {
    video_bps * 95 / 100
}

/// The video bitrate after `n` shrinking steps.
pub open spec fn shrunk(video_bps: nat, n: nat) -> nat
    decreases n,
{
    if n == 0 {
        video_bps
    } else {
        shrink_spec(shrunk(video_bps, (n - 1) as nat))
    }
}

impl BitratePlan {
    /// The plan of the first attempt for a size budget of `size_kb` decimal
    /// kilobytes (1000 per megabyte), a source of `duration_ms` milliseconds
    /// and an audio bitrate of `audio_bps` bits per second.
    pub fn initial(size_kb: u64, duration_ms: u64, audio_bps: u64) -> (r: BitratePlan)
        requires
            duration_ms > 0,
            size_kb <= MAX_SIZE_KB,
            audio_bps <= MAX_AUDIO_BPS,
        ensures
            (r.video_bps as nat, r.audio_bps as nat) == initial_plan_spec(
                size_kb as nat,
                duration_ms as nat,
                audio_bps as nat,
            ),
    {
        assert(size_kb * 8388608 <= u64::MAX) by (nonlinear_arith)
            requires
                size_kb <= MAX_SIZE_KB,
        ;
        let budget: u64 = size_kb * 8388608 / duration_ms;
        let audio: u64 = audio_bps;
        if budget >= audio {
            BitratePlan { video_bps: budget - audio, audio_bps: audio }
        } else {
            BitratePlan { video_bps: budget, audio_bps: audio + (audio - budget) }
        }
    }
}

/// The video bitrate of the attempt after one that overshot the budget.
pub fn shrink(video_bps: u64) -> (r: u64)
    ensures
        r == shrink_spec(video_bps as nat),
        r <= video_bps,
        video_bps > 0 ==> r < video_bps,
{
    let wide: u128 = video_bps as u128 * 95 / 100;
    wide as u64
}

/// Each shrinking step lowers a positive bitrate, and after `n` steps the
/// bitrate is at most the first one times 0.95 to the power `n`.
pub proof fn lemma_shrunk_bound(video_bps: nat, n: nat)
    ensures
        shrunk(video_bps, n) * pow100(n) <= video_bps * pow95(n),
        shrunk(video_bps, n) > 0 ==> shrunk(video_bps, n + 1) < shrunk(video_bps, n),
    decreases n,
{
    let c = shrunk(video_bps, n);
    assert(c > 0 ==> c * 95 / 100 < c) by (nonlinear_arith);
    if n > 0 {
        let m = (n - 1) as nat;
        lemma_shrunk_bound(video_bps, m);
        let p = shrunk(video_bps, m);
        let x = pow100(m);
        let y = pow95(m);
        assert(p * x <= video_bps * y);
        assert((p * 95 / 100) * 100 <= p * 95) by (nonlinear_arith);
        assert(c * (100 * x) <= video_bps * (95 * y)) by (nonlinear_arith)
            requires
                c == p * 95 / 100,
                (p * 95 / 100) * 100 <= p * 95,
                p * x <= video_bps * y,
                x >= 0,
        ;
    }
}

/// 100 to the power `n`.
pub open spec fn pow100(n: nat) -> nat
    decreases n,
{
    if n == 0 {
        1
    } else {
        100 * pow100((n - 1) as nat)
    }
}

/// 95 to the power `n`.
pub open spec fn pow95(n: nat) -> nat
    decreases n,
{
    if n == 0 {
        1
    } else {
        95 * pow95((n - 1) as nat)
    }
}

/// Shrinking `n + 1` times is shrinking once and then `n` times.
pub proof fn lemma_shrunk_shift(v: nat, n: nat)
    ensures
        shrunk(v, n + 1) == shrunk(shrink_spec(v), n),
    decreases n,
{
    if n > 0 {
        lemma_shrunk_shift(v, (n - 1) as nat);
        assert(shrunk(v, n + 1) == shrink_spec(shrunk(v, n)));
        assert(shrunk(v, n) == shrink_spec(shrunk(v, (n - 1) as nat)));
        assert(shrunk(shrink_spec(v), n) == shrink_spec(shrunk(shrink_spec(v), (n - 1) as nat)));
    } else {
        assert(shrunk(v, 1) == shrink_spec(shrunk(v, 0)));
    }
}

} // verus!
