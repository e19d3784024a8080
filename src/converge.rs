//! The run of encode attempts as a state machine: each step is a pure
//! function of the state and what the driver observed.
use vstd::prelude::*;

use crate::bitrate::{
    lemma_shrunk_bound, lemma_shrunk_shift, pow100, pow95, shrink, shrink_spec, shrunk, BitratePlan,
};

verus! {

/// Where a run stands.
#[derive(Clone, Copy, Debug, PartialEq, Eq)]
pub enum Phase {
    FirstPass,
    SecondPass,
    Measuring,
    Accepted,
    GaveUp,
}

/// What happened since the last step.
#[derive(Clone, Copy, Debug, PartialEq, Eq)]
pub enum Event {
    /// The encoder pass that was asked for has exited successfully.
    PassFinished,
    /// The output file of the attempt holds this many bytes.
    OutputSize(u64),
}

/// What the driver of a run does next.
#[derive(Clone, Copy, Debug, PartialEq, Eq)]
pub enum Action {
    /// Run encoder pass `pass` (1 or 2) at these bitrates.
    Encode { pass: u8, video_bps: u64, audio_bps: u64 },
    /// Read the length of the output file.
    Measure,
    /// The output is within budget: stop and keep it.
    Accept,
    /// Every allowed attempt overshot the budget.
    GiveUp,
}

/// A run that encodes, measures and retries at a lower video bitrate until the
/// output is within its size budget. Only a retry limit, where one is set,
/// makes it give up; without one it retries for as long as the output
/// overshoots. `attempt` counts from 1 and saturates at `u32::MAX`; `max_retries`, where set, is how many attempts may follow the
/// first.
#[derive(Clone, Copy, Debug, PartialEq, Eq)]
pub struct Convergence {
    pub plan: BitratePlan,
    pub budget_bytes: u64,
    pub attempt: u32,
    pub max_retries: Option<u32>,
    pub phase: Phase,
}

/// Bytes in one decimal kilobyte.
pub const BYTES_PER_KB: u64 = 1000;

/// The size budget in bytes of `size_kb` decimal kilobytes.
pub open spec fn budget_bytes_of(size_kb: nat) -> nat {
    size_kb * 1000
}

/// The budget in bytes of a size in decimal kilobytes: a megabyte is a million
/// bytes here.
pub fn budget_bytes(size_kb: u64) -> (r: u64)
    requires
        size_kb <= u64::MAX / 1000,
    ensures
        r == budget_bytes_of(size_kb as nat),
{
    size_kb * BYTES_PER_KB
}

/// The state in which a run starts.
pub open spec fn start_spec(plan: BitratePlan, budget_bytes: u64, max_retries: Option<u32>) -> Convergence {
    Convergence { plan, budget_bytes, attempt: 1, max_retries, phase: Phase::FirstPass }
}

/// Whether an attempt may follow attempt `attempt`: no retry limit is set, or
/// it is not reached.
pub open spec fn may_retry(s: Convergence) -> bool {
    match s.max_retries {
        None => true,
        Some(m) => s.attempt <= m,
    }
}

/// The state after `e`. An event that does not fit the phase changes nothing.
pub open spec fn next_spec(s: Convergence, e: Event) -> Convergence {
    match (s.phase, e) {
        (Phase::FirstPass, Event::PassFinished) => Convergence { phase: Phase::SecondPass, ..s },
        (Phase::SecondPass, Event::PassFinished) => Convergence { phase: Phase::Measuring, ..s },
        (Phase::Measuring, Event::OutputSize(len)) => {
            if len < s.budget_bytes {
                Convergence { phase: Phase::Accepted, ..s }
            } else if may_retry(s) {
                Convergence {
                    plan: BitratePlan {
                        video_bps: shrink_spec(s.plan.video_bps as nat) as u64,
                        audio_bps: s.plan.audio_bps,
                    },
                    attempt: if s.attempt == u32::MAX { s.attempt } else { (s.attempt + 1) as u32 },
                    phase: Phase::FirstPass,
                    ..s
                }
            } else {
                Convergence { phase: Phase::GaveUp, ..s }
            }
        },
        _ => s,
    }
}

/// The action that state `s` asks for.
pub open spec fn action_spec(s: Convergence) -> Action {
    match s.phase {
        Phase::FirstPass => Action::Encode {
            pass: 1,
            video_bps: s.plan.video_bps,
            audio_bps: s.plan.audio_bps,
        },
        Phase::SecondPass => Action::Encode {
            pass: 2,
            video_bps: s.plan.video_bps,
            audio_bps: s.plan.audio_bps,
        },
        Phase::Measuring => Action::Measure,
        Phase::Accepted => Action::Accept,
        Phase::GaveUp => Action::GiveUp,
    }
}

/// Whether a run in state `s` is over.
pub open spec fn is_terminal(s: Convergence) -> bool {
    s.phase == Phase::Accepted || s.phase == Phase::GaveUp
}

/// One whole attempt whose output is exactly at the budget, which counts as
/// an overshoot.
pub open spec fn overshooting_attempt(s: Convergence) -> Convergence {
    next_spec(
        next_spec(next_spec(s, Event::PassFinished), Event::PassFinished),
        Event::OutputSize(s.budget_bytes),
    )
}

/// The state after `n` overshooting attempts.
pub open spec fn overshooting_attempts(s: Convergence, n: nat) -> Convergence
    decreases n,
{
    if n == 0 {
        s
    } else {
        overshooting_attempts(overshooting_attempt(s), (n - 1) as nat)
    }
}

impl Convergence {
    /// Attempts are counted from 1.
    pub open spec fn wf(&self) -> bool {
        self.attempt >= 1
    }

    /// A run that starts with the first pass of the first attempt.
    pub fn new(plan: BitratePlan, budget_bytes: u64, max_retries: Option<u32>) -> (r: Convergence)
        ensures
            r == start_spec(plan, budget_bytes, max_retries),
            r.wf(),
    {
        Convergence { plan, budget_bytes, attempt: 1, max_retries, phase: Phase::FirstPass }
    }

    /// The state after `e`.
    pub fn step(self, e: Event) -> (r: Convergence)
        ensures
            r == next_spec(self, e),
            self.wf() ==> r.wf(),
            r.plan.video_bps <= self.plan.video_bps,
            r.phase == Phase::FirstPass && self.phase == Phase::Measuring ==> r.plan.video_bps
                == shrink_spec(self.plan.video_bps as nat) && (self.plan.video_bps > 0
                ==> r.plan.video_bps < self.plan.video_bps),
            r.plan.audio_bps == self.plan.audio_bps,
            r.budget_bytes == self.budget_bytes,
    {
        match (self.phase, e) {
            (Phase::FirstPass, Event::PassFinished) => Convergence { phase: Phase::SecondPass, ..self },
            (Phase::SecondPass, Event::PassFinished) => Convergence { phase: Phase::Measuring, ..self },
            (Phase::Measuring, Event::OutputSize(len)) => {
                let video_bps = shrink(self.plan.video_bps);
                let retry = match self.max_retries {
                    None => true,
                    Some(m) => self.attempt <= m,
                };
                if len < self.budget_bytes {
                    Convergence { phase: Phase::Accepted, ..self }
                } else if retry {
                    let attempt: u32 = if self.attempt == u32::MAX {
                        self.attempt
                    } else {
                        self.attempt + 1
                    };
                    Convergence {
                        plan: BitratePlan { video_bps, audio_bps: self.plan.audio_bps },
                        attempt,
                        phase: Phase::FirstPass,
                        ..self
                    }
                } else {
                    Convergence { phase: Phase::GaveUp, ..self }
                }
            },
            _ => self,
        }
    }

    /// What the driver does next.
    pub fn action(&self) -> (r: Action)
        ensures
            r == action_spec(*self),
    {
        match self.phase {
            Phase::FirstPass => Action::Encode {
                pass: 1,
                video_bps: self.plan.video_bps,
                audio_bps: self.plan.audio_bps,
            },
            Phase::SecondPass => Action::Encode {
                pass: 2,
                video_bps: self.plan.video_bps,
                audio_bps: self.plan.audio_bps,
            },
            Phase::Measuring => Action::Measure,
            Phase::Accepted => Action::Accept,
            Phase::GaveUp => Action::GiveUp,
        }
    }

    /// The pass shown to the user and the passes of all attempts so far: pass
    /// 1 of attempt `a` is pass `2a - 1` of `2a`, pass 2 is pass `2a` of `2a`.
    pub fn pass_label(&self) -> (r: (u64, u64))
        requires
            self.wf(),
        ensures
            r.1 == 2 * self.attempt,
            self.phase == Phase::FirstPass ==> r.0 == 2 * self.attempt - 1,
            self.phase != Phase::FirstPass ==> r.0 == 2 * self.attempt,
    {
        let passes: u64 = 2 * self.attempt as u64;
        match self.phase {
            Phase::FirstPass => (passes - 1, passes),
            _ => (passes, passes),
        }
    }

    /// Whether the run is over.
    pub fn is_done(&self) -> (r: bool)
        ensures
            r == is_terminal(*self),
    {
        match self.phase {
            Phase::Accepted | Phase::GaveUp => true,
            _ => false,
        }
    }
}

/// An output within budget after the first attempt ends the run there: the
/// run asks for pass 1, then pass 2, then a measurement, and then accepts,
/// with no second attempt.
pub proof fn lemma_within_budget_first_time(
    plan: BitratePlan,
    budget_bytes: u64,
    max_retries: Option<u32>,
    len: u64,
)
    requires
        len < budget_bytes,
    ensures
        ({
            let s0 = start_spec(plan, budget_bytes, max_retries);
            let s1 = next_spec(s0, Event::PassFinished);
            let s2 = next_spec(s1, Event::PassFinished);
            let s3 = next_spec(s2, Event::OutputSize(len));
            &&& action_spec(s0) == Action::Encode {
                pass: 1,
                video_bps: plan.video_bps,
                audio_bps: plan.audio_bps,
            }
            &&& action_spec(s1) == Action::Encode {
                pass: 2,
                video_bps: plan.video_bps,
                audio_bps: plan.audio_bps,
            }
            &&& action_spec(s2) == Action::Measure
            &&& action_spec(s3) == Action::Accept
            &&& s3.attempt == 1
            &&& s3.plan == plan
        }),
{
}

/// Overshooting attempts from a state at the first pass, while retries are
/// allowed: each one lowers the video bitrate by
/// one shrinking step, keeps the audio bitrate, counts one attempt and starts
/// over at the first pass.
pub proof fn lemma_overshooting_attempts(s: Convergence, n: nat)
    requires
        s.phase == Phase::FirstPass,
        s.attempt + n <= u32::MAX,
        s.max_retries matches Some(m) ==> s.attempt + n <= m + 1,
    ensures
        ({
            let r = overshooting_attempts(s, n);
            &&& r.phase == Phase::FirstPass
            &&& r.attempt == s.attempt + n
            &&& r.plan.video_bps == shrunk(s.plan.video_bps as nat, n)
            &&& r.plan.audio_bps == s.plan.audio_bps
            &&& r.budget_bytes == s.budget_bytes
            &&& r.max_retries == s.max_retries
        }),
    decreases n,
{
    if n > 0 {
        let t = overshooting_attempt(s);
        let v = s.plan.video_bps;
        assert(v * 95 / 100 <= v) by (nonlinear_arith);
        lemma_shrunk_shift(v as nat, (n - 1) as nat);
        lemma_overshooting_attempts(t, (n - 1) as nat);
    }
}

/// Attempt `i` of a run, counted from 1, where the run gets that far, encodes
/// at the first video bitrate shrunk `i - 1` times, at most the first rate
/// times 0.95 to the power `i - 1`. While the rate of the attempt before is
/// positive, this one is lower.
pub proof fn lemma_attempt_bitrates(plan: BitratePlan, budget_bytes: u64, max_retries: Option<u32>, i: nat)
    requires
        1 <= i < u32::MAX,
        max_retries matches Some(m) ==> i <= m + 1,
    ensures
        ({
            let r = overshooting_attempts(start_spec(plan, budget_bytes, max_retries), (i - 1) as nat);
            &&& r.attempt == i
            &&& r.plan.video_bps == shrunk(plan.video_bps as nat, (i - 1) as nat)
            &&& r.plan.video_bps * pow100((i - 1) as nat) <= plan.video_bps * pow95((i - 1) as nat)
            &&& r.plan.audio_bps == plan.audio_bps
            &&& action_spec(r) == Action::Encode {
                pass: 1,
                video_bps: r.plan.video_bps,
                audio_bps: plan.audio_bps,
            }
        }),
        i >= 2 && shrunk(plan.video_bps as nat, (i - 2) as nat) > 0 ==> shrunk(
            plan.video_bps as nat,
            (i - 1) as nat,
        ) < shrunk(
            plan.video_bps as nat,
            (i - 2) as nat,
        ),
{
    lemma_overshooting_attempts(start_spec(plan, budget_bytes, max_retries), (i - 1) as nat);
    lemma_shrunk_bound(plan.video_bps as nat, (i - 1) as nat);
    if i >= 2 {
        lemma_shrunk_bound(plan.video_bps as nat, (i - 2) as nat);
    }
}

/// Without a retry limit no overshoot ends a run: whatever the output size at
/// or above the budget, the run goes on to another attempt at the shrunk
/// bitrate, and after any number of overshooting attempts it is still going.
pub proof fn lemma_unbounded_never_ends(s: Convergence, len: u64, n: nat)
    requires
        s.max_retries is None,
        s.phase == Phase::Measuring,
        len >= s.budget_bytes,
        n + 1 <= u32::MAX,
    ensures
        next_spec(s, Event::OutputSize(len)).phase == Phase::FirstPass,
        next_spec(s, Event::OutputSize(len)).plan.video_bps == shrink_spec(
            s.plan.video_bps as nat,
        ),
        !is_terminal(
            overshooting_attempts(start_spec(s.plan, s.budget_bytes, None), n),
        ),
{
    lemma_overshooting_attempts(start_spec(s.plan, s.budget_bytes, None), n);
}

/// With a limit of `m` retries, a run whose every output overshoots gives up
/// after attempt `m + 1` and not before.
pub proof fn lemma_retry_limit_ends(plan: BitratePlan, budget_bytes: u64, m: u32)
    requires
        m < u32::MAX,
    ensures
        ({
            let s0 = start_spec(plan, budget_bytes, Some(m));
            let last = overshooting_attempts(s0, m as nat);
            let end = overshooting_attempt(last);
            &&& last.attempt == m + 1
            &&& !is_terminal(last)
            &&& end.phase == Phase::GaveUp
            &&& end.attempt == m + 1
            &&& action_spec(end) == Action::GiveUp
        }),
{
    lemma_overshooting_attempts(start_spec(plan, budget_bytes, Some(m)), m as nat);
}

/// An attempt whose output is under the budget ends the run in success, at
/// any attempt and whatever the retry limit, and the run then stays there.
pub proof fn lemma_fitting_output_accepted(s: Convergence, len: u64, e: Event)
    requires
        s.phase == Phase::Measuring,
        len < s.budget_bytes,
    ensures
        next_spec(s, Event::OutputSize(len)).phase == Phase::Accepted,
        next_spec(s, Event::OutputSize(len)).attempt == s.attempt,
        next_spec(s, Event::OutputSize(len)).plan == s.plan,
        action_spec(next_spec(s, Event::OutputSize(len))) == Action::Accept,
        next_spec(next_spec(s, Event::OutputSize(len)), e) == next_spec(s, Event::OutputSize(len)),
{
}

} // verus!
