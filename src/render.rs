//! The status block that shows a progress sample in place.
use vstd::prelude::*;
use vstd::string::StringExecFns;

use crate::progress::ProgressSample;

verus! {

/// Cells in the progress bar.
pub const BAR_WIDTH: u64 = 16;

/// What the display shows of one sample.
#[derive(Clone, Copy, Debug, PartialEq, Eq)]
pub struct ProgressState {
    /// Whole percent of the frames done, at most 100.
    pub percent: u64,
    /// Whole seconds until the pass ends at the current speed.
    pub seconds_left: u64,
}

/// Whole percent of `total` frames that `frame` frames make, at most 100; a
/// source without frames counts as done.
pub open spec fn percent_spec(frame: nat, total: nat) -> nat {
    if total == 0 || frame >= total {
        100
    } else {
        frame * 100 / total
    }
}

/// Whole seconds that the frames left take at `fps` frames per second.
pub open spec fn seconds_left_spec(frame: nat, total: nat, fps: nat) -> nat {
    if frame >= total || fps == 0 {
        0
    } else {
        ((total - frame) as nat) / fps
    }
}

/// Filled cells of the bar at `percent`, rounded down.
pub open spec fn filled_cells(percent: nat) -> nat {
    percent * 16 / 100
}

/// The bar at `percent`: filled cells, then blanks, 16 in all.
pub open spec fn bar_spec(percent: nat) -> Seq<char> {
    Seq::new(filled_cells(percent), |i: int| '█') + Seq::new(
        (16 - filled_cells(percent)) as nat,
        |i: int| ' ',
    )
}

pub open spec fn digit_chars() -> Seq<char> {
    seq!['0', '1', '2', '3', '4', '5', '6', '7', '8', '9']
}

/// The decimal digits of `n`, without leading zeros.
pub open spec fn decimal_text(n: nat) -> Seq<char>
    decreases n,
{
    if n < 10 {
        seq![digit_chars()[n as int]]
    } else {
        decimal_text(n / 10).push(digit_chars()[(n % 10) as int])
    }
}

/// The text of one digit.
fn digit_str(d: u64) -> (r: &'static str)
    requires
        d < 10,
    ensures
        r@ == seq![digit_chars()[d as int]],
{
    proof {
        reveal_strlit("0");
        reveal_strlit("1");
        reveal_strlit("2");
        reveal_strlit("3");
        reveal_strlit("4");
        reveal_strlit("5");
        reveal_strlit("6");
        reveal_strlit("7");
        reveal_strlit("8");
        reveal_strlit("9");
    }
    let r = match d {
        0 => "0",
        1 => "1",
        2 => "2",
        3 => "3",
        4 => "4",
        5 => "5",
        6 => "6",
        7 => "7",
        8 => "8",
        _ => "9",
    };
    assert(r@ =~= seq![digit_chars()[d as int]]);
    r
}

/// The decimal text of `n`.
pub fn decimal(n: u64) -> (r: String)
    ensures
        r@ == decimal_text(n as nat),
    decreases n,
{
    if n < 10 {
        let mut s = String::new();
        s.append(digit_str(n));
        assert(s@ =~= decimal_text(n as nat));
        s
    } else {
        let mut s = decimal(n / 10);
        s.append(digit_str(n % 10));
        assert(s@ =~= decimal_text(n as nat));
        s
    }
}

/// What the display shows of `sample` in a pass over `total_frames` frames.
pub fn progress_state(sample: ProgressSample, total_frames: u64) -> (r: ProgressState)
    ensures
        r.percent <= 100,
        r.percent == percent_spec(sample.frame as nat, total_frames as nat),
        r.seconds_left == seconds_left_spec(
            sample.frame as nat,
            total_frames as nat,
            sample.fps as nat,
        ),
{
    let percent: u64 = if total_frames == 0 || sample.frame >= total_frames {
        100
    } else {
        let wide: u128 = sample.frame as u128 * 100 / total_frames as u128;
        assert((sample.frame as int) * 100 / (total_frames as int) < 100) by (nonlinear_arith)
            requires
                sample.frame < total_frames,
        ;
        wide as u64
    };
    let seconds_left: u64 = if sample.frame >= total_frames || sample.fps == 0 {
        0
    } else {
        (total_frames - sample.frame) / sample.fps
    };
    ProgressState { percent, seconds_left }
}

/// The progress bar at `percent`.
pub fn bar(percent: u64) -> (r: String)
    requires
        percent <= 100,
    ensures
        r@ == bar_spec(percent as nat),
        r@.len() == 16,
{
    proof {
        reveal_strlit("█");
        reveal_strlit(" ");
    }
    assert(percent * 16 / 100 <= 16) by (nonlinear_arith)
        requires
            percent <= 100,
    ;
    let filled: u64 = percent * 16 / 100;
    let mut s = String::new();
    let mut i: u64 = 0;
    while i < BAR_WIDTH
        invariant
            filled == filled_cells(percent as nat) <= 16,
            i <= 16,
            s@.len() == i,
            forall|j: int| 0 <= j < i ==> s@[j] == (if j < filled { '█' } else { ' ' }),
        decreases 16 - i,
    {
        proof {
            reveal_strlit("█");
            reveal_strlit(" ");
        }
        if i < filled {
            s.append("█");
        } else {
            s.append(" ");
        }
        i = i + 1;
    }
    assert(s@ =~= bar_spec(percent as nat));
    s
}

/// The four lines that show `sample` during pass `pass` of `passes`, ending
/// with the escape that moves the cursor back up over them, so that the next
/// block overwrites this one.
pub open spec fn block_spec(sample: ProgressSample, total_frames: nat, pass: nat, passes: nat) -> Seq<char> {
    let percent = percent_spec(sample.frame as nat, total_frames);
    let left = seconds_left_spec(sample.frame as nat, total_frames, sample.fps as nat);
    "fps "@ + decimal_text(sample.fps as nat) + "         | frame "@ + decimal_text(
        sample.frame as nat,
    ) + "/"@ + decimal_text(total_frames) + "\n"@ + bar_spec(percent) + "| "@ + decimal_text(
        percent,
    ) + "%\npass            | "@ + decimal_text(pass) + "/"@ + decimal_text(passes)
        + "\ntime left pass  | "@ + decimal_text(left) + " seconds \x1b[4F"@
}

/// The status block for `sample` during pass `pass` of `passes`.
pub fn render(sample: ProgressSample, total_frames: u64, pass: u64, passes: u64) -> (r: String)
    ensures
        r@ == block_spec(sample, total_frames as nat, pass as nat, passes as nat),
{
    let state = progress_state(sample, total_frames);
    let mut s = String::new();
    s.append("fps ");
    s.append(decimal(sample.fps).as_str());
    s.append("         | frame ");
    s.append(decimal(sample.frame).as_str());
    s.append("/");
    s.append(decimal(total_frames).as_str());
    s.append("\n");
    s.append(bar(state.percent).as_str());
    s.append("| ");
    s.append(decimal(state.percent).as_str());
    s.append("%\npass            | ");
    s.append(decimal(pass).as_str());
    s.append("/");
    s.append(decimal(passes).as_str());
    s.append("\ntime left pass  | ");
    s.append(decimal(state.seconds_left).as_str());
    s.append(" seconds \x1b[4F");
    assert(s@ =~= block_spec(sample, total_frames as nat, pass as nat, passes as nat));
    s
}

} // verus!
