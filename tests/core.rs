use compressr::bitrate::{shrink, BitratePlan};
use compressr::converge::{budget_bytes, Action, Convergence, Event, Phase};
use compressr::probe::{parse_frame_count, ProbeError};
use compressr::progress::{
    read_line, LineReading, ParseWarning, ProgressMode, ProgressParser, ProgressSample, Shown,
};
use compressr::render::{bar, decimal, progress_state, render};

fn drive(run: Convergence, sizes: &[u64]) -> (Convergence, Vec<Action>) {
    let mut run = run;
    let mut actions = Vec::new();
    let mut next_size = 0;
    for _ in 0..1000 {
        let action = run.action();
        actions.push(action);
        match action {
            Action::Encode { .. } => run = run.step(Event::PassFinished),
            Action::Measure => {
                run = run.step(Event::OutputSize(sizes[next_size.min(sizes.len() - 1)]));
                next_size += 1;
            }
            Action::Accept | Action::GiveUp => break,
        }
    }
    (run, actions)
}

#[test]
fn audio_over_budget_moves_shortfall_to_audio() {
    // 5 MB over 100 s at 500 kbps of audio: the budget is 409.6 kbps.
    let plan = BitratePlan::initial(5000, 100_000, 500 * 1024);
    assert_eq!(plan.video_bps, 419_430);
    assert_eq!(plan.audio_bps, 2 * 512_000 - 419_430);
}

#[test]
fn audio_within_budget_leaves_the_rest_to_video() {
    // 5 MB over 10 s: 4096 kbps in all, 500 of them audio.
    let plan = BitratePlan::initial(5000, 10_000, 500 * 1024);
    assert_eq!(plan.video_bps, 4096 * 1024 - 500 * 1024);
    assert_eq!(plan.audio_bps, 500 * 1024);
}

#[test]
fn audio_equal_to_budget_leaves_no_video() {
    // 1 MB over 8.192 s is exactly 1000 kbps.
    let plan = BitratePlan::initial(1000, 8192, 1000 * 1024);
    assert_eq!(plan.video_bps, 0);
    assert_eq!(plan.audio_bps, 1_024_000);
}

#[test]
fn budget_is_decimal_megabytes() {
    assert_eq!(budget_bytes(25_000), 25_000_000);
}

#[test]
fn shrink_takes_ninety_five_percent() {
    assert_eq!(shrink(1_000_000), 950_000);
    assert_eq!(shrink(19), 18);
    assert_eq!(shrink(1), 0);
    assert_eq!(shrink(0), 0);
    assert_eq!(shrink(u64::MAX), (u64::MAX as u128 * 95 / 100) as u64);
}

#[test]
fn frame_then_fps_completes_a_sample() {
    let mut p = ProgressParser::new();
    assert_eq!(p.feed("frame=500"), Ok(None));
    assert_eq!(p.feed("fps=50.00"), Ok(Some(ProgressSample { frame: 500, fps: 50 })));
    assert_eq!(p, ProgressParser { frame: 0, fps: 0 });
}

#[test]
fn fps_then_frame_completes_a_sample() {
    let mut p = ProgressParser::new();
    assert_eq!(p.feed("fps=29.97"), Ok(None));
    assert_eq!(p.feed("bitrate=1200.5kbits/s"), Ok(None));
    assert_eq!(p.feed("frame=12"), Ok(Some(ProgressSample { frame: 12, fps: 29 })));
}

#[test]
fn a_sample_needs_both_values_again_after_emission() {
    let mut p = ProgressParser::new();
    assert_eq!(p.feed("frame=10"), Ok(None));
    assert_eq!(p.feed("fps=5"), Ok(Some(ProgressSample { frame: 10, fps: 5 })));
    assert_eq!(p.feed("frame=20"), Ok(None));
    assert_eq!(p.feed("frame=30"), Ok(None));
    assert_eq!(p.feed("fps=6"), Ok(Some(ProgressSample { frame: 30, fps: 6 })));
}

#[test]
fn zero_values_do_not_complete_a_sample() {
    let mut p = ProgressParser::new();
    assert_eq!(p.feed("frame=0"), Ok(None));
    assert_eq!(p.feed("fps=0.00"), Ok(None));
    assert_eq!(p.feed("frame=3"), Ok(None));
    assert_eq!(p.feed("fps=0.50"), Ok(None));
    assert_eq!(p, ProgressParser { frame: 3, fps: 0 });
}

#[test]
fn malformed_value_is_skipped_with_a_warning() {
    let mut p = ProgressParser::new();
    assert_eq!(p.feed("frame=12"), Ok(None));
    assert_eq!(p.feed("fps=fast"), Err(ParseWarning));
    assert_eq!(p.feed("frame="), Err(ParseWarning));
    assert_eq!(p.feed("frame=18446744073709551616"), Err(ParseWarning));
    assert_eq!(p, ProgressParser { frame: 12, fps: 0 });
    assert_eq!(p.feed("fps=24"), Ok(Some(ProgressSample { frame: 12, fps: 24 })));
}

#[test]
fn other_keys_are_ignored() {
    assert_eq!(read_line("dup_frames=3"), LineReading::Other);
    assert_eq!(read_line("drop_frames=1"), LineReading::Other);
    assert_eq!(read_line("progress=continue"), LineReading::Other);
    assert_eq!(read_line("fps"), LineReading::Other);
    assert_eq!(read_line(""), LineReading::Other);
}

#[test]
fn line_readings() {
    assert_eq!(read_line("frame=18446744073709551615"), LineReading::Frame(u64::MAX));
    assert_eq!(read_line("fps=59.94"), LineReading::Fps(59));
    assert_eq!(read_line("fps=7."), LineReading::Fps(7));
    assert_eq!(read_line("fps=.5"), LineReading::Fps(0));
    assert_eq!(read_line("fps=+5"), LineReading::Fps(5));
    assert_eq!(read_line("fps=+12.75"), LineReading::Fps(12));
    assert_eq!(read_line("fps=."), LineReading::Malformed);
    assert_eq!(read_line("fps=+"), LineReading::Malformed);
    assert_eq!(read_line("fps=-5"), LineReading::Malformed);
    assert_eq!(read_line("frame=+5"), LineReading::Frame(5));
    assert_eq!(read_line("frame=+"), LineReading::Malformed);
    assert_eq!(read_line("fps=1.2.3"), LineReading::Malformed);
    assert_eq!(read_line("frame=12 "), LineReading::Malformed);
}

#[test]
fn half_way_at_fifty_fps() {
    let s = progress_state(ProgressSample { frame: 500, fps: 50 }, 1000);
    assert_eq!(s.percent, 50);
    assert_eq!(s.seconds_left, 10);
}

#[test]
fn percent_rounds_down_and_stops_at_one_hundred() {
    assert_eq!(progress_state(ProgressSample { frame: 2, fps: 1 }, 3).percent, 66);
    assert_eq!(progress_state(ProgressSample { frame: 7, fps: 2 }, 10).seconds_left, 1);
    let past = progress_state(ProgressSample { frame: 12, fps: 4 }, 10);
    assert_eq!(past.percent, 100);
    assert_eq!(past.seconds_left, 0);
    assert_eq!(progress_state(ProgressSample { frame: 1, fps: 1 }, 0).percent, 100);
}

#[test]
fn bar_ends_and_middle() {
    assert_eq!(bar(0), " ".repeat(16));
    assert_eq!(bar(100), "█".repeat(16));
    assert_eq!(bar(50), format!("{}{}", "█".repeat(8), " ".repeat(8)));
    assert_eq!(bar(99), format!("{}{}", "█".repeat(15), " "));
}

#[test]
fn decimal_text() {
    assert_eq!(decimal(0), "0");
    assert_eq!(decimal(7), "7");
    assert_eq!(decimal(1080), "1080");
    assert_eq!(decimal(u64::MAX), "18446744073709551615");
}

#[test]
fn status_block() {
    let block = render(ProgressSample { frame: 500, fps: 50 }, 1000, 3, 4);
    let expected = format!(
        "fps 50         | frame 500/1000\n{}{}| 50%\npass            | 3/4\ntime left pass  | 10 seconds \x1b[4F",
        "█".repeat(8),
        " ".repeat(8)
    );
    assert_eq!(block, expected);
}

#[test]
fn frame_count_from_probe_output() {
    assert_eq!(parse_frame_count("1234\n"), Ok(1234));
    assert_eq!(parse_frame_count("  42 \r\n"), Ok(42));
    assert_eq!(parse_frame_count(""), Err(ProbeError::NotANumber));
    assert_eq!(parse_frame_count("N/A\n"), Err(ProbeError::NotANumber));
    assert_eq!(parse_frame_count("12 34"), Err(ProbeError::NotANumber));
    assert_eq!(parse_frame_count("7\u{b}"), Ok(7));
    assert_eq!(parse_frame_count("\u{c}+42\u{a0}\u{85}"), Ok(42));
    assert_eq!(parse_frame_count("\u{3000}9\u{2009}"), Ok(9));
    assert_eq!(parse_frame_count("+"), Err(ProbeError::NotANumber));
    assert_eq!(parse_frame_count("+ 7"), Err(ProbeError::NotANumber));
    assert_eq!(parse_frame_count("-1"), Err(ProbeError::NotANumber));
    assert_eq!(parse_frame_count("18446744073709551616"), Err(ProbeError::NotANumber));
}

#[test]
fn within_budget_first_time_is_one_attempt() {
    let plan = BitratePlan { video_bps: 1_000_000, audio_bps: 245_760 };
    let run = Convergence::new(plan, 25_000_000, None);
    let (end, actions) = drive(run, &[24_999_999]);
    assert_eq!(end.phase, Phase::Accepted);
    assert_eq!(end.attempt, 1);
    assert_eq!(
        actions,
        vec![
            Action::Encode { pass: 1, video_bps: 1_000_000, audio_bps: 245_760 },
            Action::Encode { pass: 2, video_bps: 1_000_000, audio_bps: 245_760 },
            Action::Measure,
            Action::Accept,
        ]
    );
}

#[test]
fn each_retry_lowers_video_bitrate() {
    let plan = BitratePlan { video_bps: 1_000_000, audio_bps: 100 };
    let run = Convergence::new(plan, 1000, None);
    let (end, actions) = drive(run, &[1000, 1500, 999]);
    assert_eq!(end.phase, Phase::Accepted);
    assert_eq!(end.attempt, 3);
    let first_passes: Vec<(u64, u64)> = actions
        .iter()
        .filter_map(|a| match a {
            Action::Encode { pass: 1, video_bps, audio_bps } => Some((*video_bps, *audio_bps)),
            _ => None,
        })
        .collect();
    assert_eq!(first_passes, vec![(1_000_000, 100), (950_000, 100), (902_500, 100)]);
}

#[test]
fn pass_label_counts_across_attempts() {
    let plan = BitratePlan { video_bps: 1000, audio_bps: 0 };
    let mut run = Convergence::new(plan, 10, None);
    assert_eq!(run.pass_label(), (1, 2));
    run = run.step(Event::PassFinished);
    assert_eq!(run.pass_label(), (2, 2));
    run = run.step(Event::PassFinished).step(Event::OutputSize(10));
    assert_eq!(run.pass_label(), (3, 4));
    run = run.step(Event::PassFinished);
    assert_eq!(run.pass_label(), (4, 4));
}

#[test]
fn retry_limit_gives_up_after_last_attempt() {
    let plan = BitratePlan { video_bps: 1000, audio_bps: 0 };
    let run = Convergence::new(plan, 10, Some(2));
    let (end, actions) = drive(run, &[50]);
    assert_eq!(end.phase, Phase::GaveUp);
    assert_eq!(end.attempt, 3);
    assert_eq!(actions.iter().filter(|a| **a == Action::Measure).count(), 3);
    assert_eq!(actions.last(), Some(&Action::GiveUp));
}

#[test]
fn no_retry_limit_keeps_going() {
    let plan = BitratePlan { video_bps: 1_000_000_000_000_000_000, audio_bps: 0 };
    let run = Convergence::new(plan, 10, None);
    let (end, _) = drive(run, &[50]);
    assert!(!end.is_done());
    assert_eq!(end.phase, Phase::SecondPass);
    assert_eq!(end.attempt, 334);
}

#[test]
fn events_out_of_phase_change_nothing() {
    let plan = BitratePlan { video_bps: 1000, audio_bps: 0 };
    let run = Convergence::new(plan, 10, None);
    assert_eq!(run.step(Event::OutputSize(1)), run);
    let measuring = run.step(Event::PassFinished).step(Event::PassFinished);
    assert_eq!(measuring.step(Event::PassFinished), measuring);
    let done = measuring.step(Event::OutputSize(1));
    assert!(done.is_done());
    assert_eq!(done.step(Event::OutputSize(100)), done);
}

#[test]
fn pass_through_mode_echoes_and_keeps_state() {
    let mut p = ProgressParser::new();
    assert_eq!(p.interpret(ProgressMode::PassThrough, "frame=10"), Shown::Line);
    assert_eq!(p.interpret(ProgressMode::PassThrough, "fps=5"), Shown::Line);
    assert_eq!(p, ProgressParser { frame: 0, fps: 0 });
}

#[test]
fn parse_mode_shows_samples_and_skips_bad_lines() {
    let mut p = ProgressParser::new();
    assert_eq!(p.interpret(ProgressMode::Parse, "frame=10"), Shown::Nothing);
    assert_eq!(p.interpret(ProgressMode::Parse, "fps=x"), Shown::Skipped);
    assert_eq!(p.interpret(ProgressMode::Parse, "speed=1.5x"), Shown::Nothing);
    assert_eq!(
        p.interpret(ProgressMode::Parse, "fps=5"),
        Shown::Sample(ProgressSample { frame: 10, fps: 5 })
    );
}

#[test]
fn no_retry_limit_keeps_retrying_at_zero_bitrate() {
    let plan = BitratePlan { video_bps: 1, audio_bps: 0 };
    let (end, actions) = drive(Convergence::new(plan, 10, None), &[50]);
    assert!(!end.is_done());
    assert_eq!(end.plan.video_bps, 0);
    assert_eq!(end.attempt, 334);
    assert_eq!(actions[3], Action::Encode { pass: 1, video_bps: 0, audio_bps: 0 });
}

#[test]
fn retry_at_low_bitrate_can_still_fit() {
    let plan = BitratePlan { video_bps: 1, audio_bps: 0 };
    let (end, _) = drive(Convergence::new(plan, 10, Some(4)), &[50, 50, 9]);
    assert_eq!(end.phase, Phase::Accepted);
    assert_eq!(end.attempt, 3);
}

#[test]
fn every_retry_runs_lower_while_positive() {
    let plan = BitratePlan { video_bps: 30, audio_bps: 0 };
    let (end, actions) = drive(Convergence::new(plan, 10, Some(100)), &[50]);
    assert_eq!(end.phase, Phase::GaveUp);
    assert_eq!(end.attempt, 101);
    let rates: Vec<u64> = actions
        .iter()
        .filter_map(|a| match a {
            Action::Encode { pass: 1, video_bps, .. } => Some(*video_bps),
            _ => None,
        })
        .collect();
    assert_eq!(rates.len(), 101);
    assert_eq!(rates[..4], [30, 28, 26, 24]);
    assert!(rates.windows(2).all(|w| w[0] == 0 || w[1] < w[0]));
    assert_eq!(*rates.last().unwrap(), 0);
}

#[test]
fn fractional_audio_bitrate_is_kept() {
    // 96.5 kbps of audio in a 4096 kbps budget.
    let plan = BitratePlan::initial(5000, 10_000, 98_816);
    assert_eq!(plan.audio_bps, 98_816);
    assert_eq!(plan.video_bps, 4096 * 1024 - 98_816);
}

#[test]
fn fps_with_exponent() {
    assert_eq!(read_line("fps=1e1"), LineReading::Fps(10));
    assert_eq!(read_line("fps=2.5E+1"), LineReading::Fps(25));
    assert_eq!(read_line("fps=25e-1"), LineReading::Fps(2));
    assert_eq!(read_line("fps=12.3456e2"), LineReading::Fps(1234));
    assert_eq!(read_line("fps=.5e1"), LineReading::Fps(5));
    assert_eq!(read_line("fps=+3.e0"), LineReading::Fps(3));
    assert_eq!(read_line("fps=1e19"), LineReading::Fps(10_000_000_000_000_000_000));
    assert_eq!(read_line("fps=1e20"), LineReading::Malformed);
    assert_eq!(read_line("fps=1e-99999999999999999999999999999999"), LineReading::Fps(0));
    assert_eq!(read_line("fps=0e99999999999999999999999999999999"), LineReading::Fps(0));
    assert_eq!(read_line("fps=1e99999999999999999999999999999999"), LineReading::Malformed);
    assert_eq!(read_line("fps=1e"), LineReading::Malformed);
    assert_eq!(read_line("fps=1e+"), LineReading::Malformed);
    assert_eq!(read_line("fps=e1"), LineReading::Malformed);
}

#[test]
fn exponent_fps_completes_a_sample() {
    let mut p = ProgressParser::new();
    assert_eq!(p.feed("frame=10"), Ok(None));
    assert_eq!(p.feed("fps=1e1"), Ok(Some(ProgressSample { frame: 10, fps: 10 })));
}
