//! The command lines of the probes: flags with values, in any order. A
//! misspelled flag is an error, never a silently defaulted knob.
//!
//! Durations are in nanoseconds.
use vstd::prelude::*;
use vstd::string::*;

use crate::failure::{Failure, COLS, ROWS};
use crate::monitor::{Assessment, DEFAULT_INTERVAL, DEFAULT_WARMUP};
use crate::record::RecordConfig;
use crate::replay::{BuildOptions, Mode};
use crate::report::{lemma_texts_push, optional_text, texts};
use crate::rig::ProbeConfig;
use crate::standin::StandinLaneConfig;
use crate::text::{
    chars_of, decimal, law_decimal_reads_back, number_result, number_value, parse_text_number,
    push_i64, same_text, signed_decimal, text_result,
};

verus! {

/// The exit code of a usage error.
pub const EXIT_USAGE: i32 = 2;

/// The exit code of a run that failed.
pub const EXIT_RUN_FAILED: i32 = 10;

/// The exit code of a stream that did not survive intact.
pub const EXIT_INTEGRITY: i32 = 11;

/// The exit code of a missed resource budget.
pub const EXIT_RESOURCES: i32 = 12;

/// The exit code of a regression.
pub const EXIT_REGRESSION: i32 = 13;

/// The value of the flag at the front of a command line.
pub open spec fn flag_value(rest: Seq<Seq<char>>) -> Result<Seq<char>, Seq<char>> {
    if rest.len() > 1 {
        Ok(rest[1])
    } else {
        Err(rest[0] + " needs a value"@)
    }
}

/// The number of at most `max` that the flag at the front of a command line
/// has for a value.
pub open spec fn flag_number(rest: Seq<Seq<char>>, max: nat) -> Result<u64, Seq<char>> {
    match flag_value(rest) {
        Ok(raw) => match number_value(raw, max) {
            Ok(n) => Ok(n as u64),
            Err(_) => Err("invalid "@ + rest[0] + " value: "@ + raw),
        },
        Err(why) => Err(why),
    }
}

/// The dimension that the flag at the front of a command line has for a value:
/// a positive number of 16 bits.
pub open spec fn flag_dimension(rest: Seq<Seq<char>>) -> Result<u64, Seq<char>> {
    match flag_number(rest, u16::MAX as nat) {
        Ok(n) => if n > 0 {
            Ok(n)
        } else {
            Err("invalid "@ + rest[0] + " value: "@ + rest[1])
        },
        Err(why) => Err(why),
    }
}

fn take_value(args: &Vec<String>, at: usize) -> (r: Result<String, String>)
    requires
        at < args@.len(),
    ensures
        text_result(r) == flag_value(texts(args@).skip(at as int)),
        r is Ok ==> at + 1 < args@.len(),
{
    let ghost rest = texts(args@).skip(at as int);
    assert(rest[0] == args@[at as int]@);
    if args.len() - at > 1 {
        assert(rest[1] == args@[at + 1]@);
        Ok(args[at + 1].clone())
    } else {
        let mut text = args[at].clone();
        text.append(" needs a value");
        Err(text)
    }
}

fn invalid(flag: &str, raw: &str) -> (text: String)
    ensures
        text@ == "invalid "@ + flag@ + " value: "@ + raw@,
{
    let mut text = "invalid ".to_owned();
    text.append(flag);
    text.append(" value: ");
    text.append(raw);
    text
}

fn take_number(args: &Vec<String>, at: usize, max: u64) -> (r: Result<u64, String>)
    requires
        at < args@.len(),
    ensures
        number_result(r) == flag_number(texts(args@).skip(at as int), max as nat),
        r matches Ok(n) ==> n <= max,
        r is Ok ==> at + 1 < args@.len(),
{
    assert(texts(args@).skip(at as int)[0] == args@[at as int]@);
    match take_value(args, at) {
        Ok(raw) => match parse_text_number(raw.as_str(), max) {
            Ok(n) => {
                proof {
                    lemma_number_fits(raw@, max as nat);
                }
                Ok(n)
            },
            Err(_) => Err(invalid(args[at].as_str(), raw.as_str())),
        },
        Err(why) => Err(why),
    }
}

fn take_dimension(args: &Vec<String>, at: usize) -> (r: Result<u64, String>)
    requires
        at < args@.len(),
    ensures
        number_result(r) == flag_dimension(texts(args@).skip(at as int)),
        r matches Ok(n) ==> n <= u16::MAX,
        r is Ok ==> at + 1 < args@.len(),
{
    let ghost rest = texts(args@).skip(at as int);
    let count: usize = args.len();
    assert(rest[0] == args@[at as int]@);
    match take_number(args, at, u16::MAX as u64) {
        Ok(n) => {
            if n > 0 {
                Ok(n)
            } else {
                assert(at + 1 < count);
                assert(rest[1] == args@[at + 1]@);
                Err(invalid(args[at].as_str(), args[at + 1].as_str()))
            }
        },
        Err(why) => Err(why),
    }
}

/// A number that reads is at most the largest that may.
proof fn lemma_number_fits(raw: Seq<char>, max: nat)
    requires
        number_value(raw, max) is Ok,
    ensures
        number_value(raw, max)->Ok_0 <= max,
{
    if raw[0] == '+' {
        lemma_digits_fit(raw.drop_first(), 0, max);
    } else {
        lemma_digits_fit(raw, 0, max);
    }
}

proof fn lemma_digits_fit(chars: Seq<char>, so_far: nat, max: nat)
    requires
        so_far <= max,
        crate::text::digits_value(chars, so_far, max) is Ok,
    ensures
        crate::text::digits_value(chars, so_far, max)->Ok_0 <= max,
    decreases chars.len(),
{
    if chars.len() > 0 {
        lemma_digits_fit(
            chars.drop_first(),
            so_far * 10 + crate::text::digit_value(chars[0]),
            max,
        );
    }
}

/// A duration with more nanoseconds added to it, stopping at what 128 bits hold:
/// minutes and seconds compose.
pub open spec fn added(total: Option<u128>, more: int) -> u128 {
    let so_far = match total {
        Some(ns) => ns as int,
        None => 0,
    };
    if so_far + more > u128::MAX {
        u128::MAX
    } else {
        (so_far + more) as u128
    }
}

/// Add to a duration: minutes and seconds compose.
pub fn add_duration(total: &mut Option<u128>, more: u128)
    ensures
        *final(total) == Some(added(*old(total), more as int)),
{
    let so_far: u128 = match *total {
        Some(ns) => ns,
        None => 0,
    };
    *total = Some(so_far.saturating_add(more));
}

/// A command line with more of it read.
pub type Step<T> = Result<(T, int), Seq<char>>;

/// What the command line of the soak lane says.
#[derive(Debug)]
pub struct SoakArgs {
    /// How long to soak, where it is said.
    pub duration: Option<u128>,
    /// Lines a second.
    pub rate: u64,
    /// Bytes to a line.
    pub line_bytes: usize,
    /// Lines between two checkpoints.
    pub checksum_every: u64,
    /// Where to write the resource series.
    pub monitor_out: Option<String>,
    /// How often to sample.
    pub monitor_interval: u128,
    /// How much of the start to leave out.
    pub warmup: u128,
    /// Where to write the report.
    pub out: Option<String>,
}

/// The contents of a `SoakArgs`.
pub struct SoakView {
    pub duration: Option<u128>,
    pub rate: u64,
    pub line_bytes: usize,
    pub checksum_every: u64,
    pub monitor_out: Option<Seq<char>>,
    pub monitor_interval: u128,
    pub warmup: u128,
    pub out: Option<Seq<char>>,
}

impl View for SoakArgs {
    type V = SoakView;

    open spec fn view(&self) -> SoakView {
        SoakView {
            duration: self.duration,
            rate: self.rate,
            line_bytes: self.line_bytes,
            checksum_every: self.checksum_every,
            monitor_out: optional_text(self.monitor_out),
            monitor_interval: self.monitor_interval,
            warmup: self.warmup,
            out: optional_text(self.out),
        }
    }
}

/// What the flag at the front of a command line sets, and how many words it takes.
pub open spec fn soak_flag(a: SoakView, rest: Seq<Seq<char>>) -> Step<SoakView> {
    if rest[0] == "--minutes"@ {
        match flag_number(rest, u64::MAX as nat) {
            Ok(v) => Ok((SoakView { duration: Some(added(a.duration, v as int * 60_000_000_000)), ..a }, 2)),
            Err(why) => Err(why),
        }
    } else if rest[0] == "--seconds"@ {
        match flag_number(rest, u64::MAX as nat) {
            Ok(v) => Ok((SoakView { duration: Some(added(a.duration, v as int * 1_000_000_000)), ..a }, 2)),
            Err(why) => Err(why),
        }
    } else if rest[0] == "--rate"@ {
        match flag_number(rest, u64::MAX as nat) {
            Ok(v) => Ok((SoakView { rate: v, ..a }, 2)),
            Err(why) => Err(why),
        }
    } else if rest[0] == "--line-bytes"@ {
        match flag_number(rest, usize::MAX as nat) {
            Ok(v) => Ok((SoakView { line_bytes: v as usize, ..a }, 2)),
            Err(why) => Err(why),
        }
    } else if rest[0] == "--checksum-every"@ {
        match flag_number(rest, u64::MAX as nat) {
            Ok(v) => Ok((SoakView { checksum_every: v, ..a }, 2)),
            Err(why) => Err(why),
        }
    } else if rest[0] == "--monitor-out"@ {
        match flag_value(rest) {
            Ok(v) => Ok((SoakView { monitor_out: Some(v), ..a }, 2)),
            Err(why) => Err(why),
        }
    } else if rest[0] == "--monitor-interval-secs"@ {
        match flag_number(rest, u64::MAX as nat) {
            Ok(v) => Ok((SoakView { monitor_interval: (v * 1_000_000_000) as u128, ..a }, 2)),
            Err(why) => Err(why),
        }
    } else if rest[0] == "--warmup-secs"@ {
        match flag_number(rest, u64::MAX as nat) {
            Ok(v) => Ok((SoakView { warmup: (v * 1_000_000_000) as u128, ..a }, 2)),
            Err(why) => Err(why),
        }
    } else if rest[0] == "--out"@ {
        match flag_value(rest) {
            Ok(v) => Ok((SoakView { out: Some(v), ..a }, 2)),
            Err(why) => Err(why),
        }
    } else {
        Err("soak: unknown flag "@ + rest[0])
    }
}

/// What a command line sets, on top of what is set already: flag by flag, up to the
/// first error.
pub open spec fn soak_flags(a: SoakView, rest: Seq<Seq<char>>) -> Result<SoakView, Seq<char>>
    decreases rest.len(),
{
    if rest.len() == 0 {
        Ok(a)
    } else {
        match soak_flag(a, rest) {
            Ok((a, n)) => if 0 < n <= rest.len() {
                soak_flags(a, rest.skip(n))
            } else {
                Ok(a)
            },
            Err(why) => Err(why),
        }
    }
}

fn take_soak_flag(a: &mut SoakArgs, args: &Vec<String>, at: usize) -> (r: Result<usize, String>)
    requires
        at < args@.len(),
    ensures
        match (r, soak_flag(old(a)@, texts(args@).skip(at as int))) {
            (Ok(n), Ok((set, taken))) => 0 < n && at + n <= args@.len() && n == taken && final(a)@
                == set,
            (Err(text), Err(why)) => text@ == why,
            _ => false,
        },
{
    let ghost rest = texts(args@).skip(at as int);
    assert(rest[0] == args@[at as int]@);
    let flag = args[at].as_str();
    if same_text(flag, "--minutes") {
        match take_number(args, at, u64::MAX) {
            Ok(v) => {
                add_duration(&mut a.duration, v as u128 * 60_000_000_000);
                Ok(2)
            },
            Err(why) => Err(why),
        }
    } else if same_text(flag, "--seconds") {
        match take_number(args, at, u64::MAX) {
            Ok(v) => {
                add_duration(&mut a.duration, v as u128 * 1_000_000_000);
                Ok(2)
            },
            Err(why) => Err(why),
        }
    } else if same_text(flag, "--rate") {
        match take_number(args, at, u64::MAX) {
            Ok(v) => {
                a.rate = v;
                Ok(2)
            },
            Err(why) => Err(why),
        }
    } else if same_text(flag, "--line-bytes") {
        match take_number(args, at, usize::MAX as u64) {
            Ok(v) => {
                a.line_bytes = v as usize;
                Ok(2)
            },
            Err(why) => Err(why),
        }
    } else if same_text(flag, "--checksum-every") {
        match take_number(args, at, u64::MAX) {
            Ok(v) => {
                a.checksum_every = v;
                Ok(2)
            },
            Err(why) => Err(why),
        }
    } else if same_text(flag, "--monitor-out") {
        match take_value(args, at) {
            Ok(v) => {
                a.monitor_out = Some(v);
                Ok(2)
            },
            Err(why) => Err(why),
        }
    } else if same_text(flag, "--monitor-interval-secs") {
        match take_number(args, at, u64::MAX) {
            Ok(v) => {
                a.monitor_interval = v as u128 * 1_000_000_000;
                Ok(2)
            },
            Err(why) => Err(why),
        }
    } else if same_text(flag, "--warmup-secs") {
        match take_number(args, at, u64::MAX) {
            Ok(v) => {
                a.warmup = v as u128 * 1_000_000_000;
                Ok(2)
            },
            Err(why) => Err(why),
        }
    } else if same_text(flag, "--out") {
        match take_value(args, at) {
            Ok(v) => {
                a.out = Some(v);
                Ok(2)
            },
            Err(why) => Err(why),
        }
    } else {
        let mut text = "soak: unknown flag ".to_owned();
        text.append(flag);
        Err(text)
    }
}

fn take_soak_flags(a: &mut SoakArgs, args: &Vec<String>) -> (r: Result<(), String>)
    ensures
        match (r, soak_flags(old(a)@, texts(args@))) {
            (Ok(()), Ok(set)) => final(a)@ == set,
            (Err(text), Err(why)) => text@ == why,
            _ => false,
        },
{
    let ghost all = texts(args@);
    let ghost goal = soak_flags(a@, all);
    let mut at: usize = 0;
    assert(all.skip(0) =~= all);
    while at < args.len()
        invariant
            all == texts(args@),
            at <= args@.len(),
            goal == soak_flags(old(a)@, all),
            goal == soak_flags(a@, all.skip(at as int)),
        decreases args@.len() - at,
    {
        let n = match take_soak_flag(a, args, at) {
            Ok(n) => n,
            Err(why) => {
                return Err(why);
            },
        };
        assert(all.skip(at as int).skip(n as int) =~= all.skip(at + n));
        at = at + n;
    }
    Ok(())
}

/// What the command line of the replay lane says.
#[derive(Debug)]
pub struct ReplayArgs {
    /// The fixtures to replay.
    pub fixtures: Vec<String>,
    /// How long to replay, where it is said.
    pub duration: Option<u128>,
    /// What to replay.
    pub mode: Mode,
    /// Gaps above this are shortened.
    pub idle_threshold: u128,
    /// What the excess of a long gap is divided by.
    pub idle_divisor: u64,
    /// Where to write the resource series.
    pub monitor_out: Option<String>,
    /// How often to sample.
    pub monitor_interval: u128,
    /// How much of the start to leave out.
    pub warmup: u128,
    /// Where to write the report.
    pub out: Option<String>,
}

/// The contents of a `ReplayArgs`.
pub struct ReplayView {
    pub fixtures: Seq<Seq<char>>,
    pub duration: Option<u128>,
    pub mode: Mode,
    pub idle_threshold: u128,
    pub idle_divisor: u64,
    pub monitor_out: Option<Seq<char>>,
    pub monitor_interval: u128,
    pub warmup: u128,
    pub out: Option<Seq<char>>,
}

impl View for ReplayArgs {
    type V = ReplayView;

    open spec fn view(&self) -> ReplayView {
        ReplayView {
            fixtures: texts(self.fixtures@),
            duration: self.duration,
            mode: self.mode,
            idle_threshold: self.idle_threshold,
            idle_divisor: self.idle_divisor,
            monitor_out: optional_text(self.monitor_out),
            monitor_interval: self.monitor_interval,
            warmup: self.warmup,
            out: optional_text(self.out),
        }
    }
}

/// What the flag at the front of a command line sets, and how many words it takes.
pub open spec fn replay_flag(a: ReplayView, rest: Seq<Seq<char>>) -> Step<ReplayView> {
    if rest[0] == "--fixture"@ {
        match flag_value(rest) {
            Ok(v) => Ok((ReplayView { fixtures: a.fixtures.push(v), ..a }, 2)),
            Err(why) => Err(why),
        }
    } else if rest[0] == "--minutes"@ {
        match flag_number(rest, u64::MAX as nat) {
            Ok(v) => Ok((ReplayView { duration: Some(added(a.duration, v as int * 60_000_000_000)), ..a }, 2)),
            Err(why) => Err(why),
        }
    } else if rest[0] == "--seconds"@ {
        match flag_number(rest, u64::MAX as nat) {
            Ok(v) => Ok((ReplayView { duration: Some(added(a.duration, v as int * 1_000_000_000)), ..a }, 2)),
            Err(why) => Err(why),
        }
    } else if rest[0] == "--content"@ {
        match flag_value(rest) {
            Ok(word) => if word == "generated"@ {
                Ok((ReplayView { mode: Mode::Generated, ..a }, 2))
            } else if word == "recorded"@ {
                Ok((ReplayView { mode: Mode::Recorded, ..a }, 2))
            } else {
                Err("--content is generated or recorded, not "@ + word)
            },
            Err(why) => Err(why),
        }
    } else if rest[0] == "--idle-threshold-ms"@ {
        match flag_number(rest, u64::MAX as nat) {
            Ok(v) => Ok((ReplayView { idle_threshold: (v * 1_000_000) as u128, ..a }, 2)),
            Err(why) => Err(why),
        }
    } else if rest[0] == "--idle-divisor"@ {
        match flag_number(rest, u64::MAX as nat) {
            Ok(v) => Ok((ReplayView { idle_divisor: v, ..a }, 2)),
            Err(why) => Err(why),
        }
    } else if rest[0] == "--monitor-out"@ {
        match flag_value(rest) {
            Ok(v) => Ok((ReplayView { monitor_out: Some(v), ..a }, 2)),
            Err(why) => Err(why),
        }
    } else if rest[0] == "--monitor-interval-secs"@ {
        match flag_number(rest, u64::MAX as nat) {
            Ok(v) => Ok((ReplayView { monitor_interval: (v * 1_000_000_000) as u128, ..a }, 2)),
            Err(why) => Err(why),
        }
    } else if rest[0] == "--warmup-secs"@ {
        match flag_number(rest, u64::MAX as nat) {
            Ok(v) => Ok((ReplayView { warmup: (v * 1_000_000_000) as u128, ..a }, 2)),
            Err(why) => Err(why),
        }
    } else if rest[0] == "--out"@ {
        match flag_value(rest) {
            Ok(v) => Ok((ReplayView { out: Some(v), ..a }, 2)),
            Err(why) => Err(why),
        }
    } else {
        Err("replay: unknown flag "@ + rest[0])
    }
}

/// What a command line sets, on top of what is set already: flag by flag, up to the
/// first error.
pub open spec fn replay_flags(a: ReplayView, rest: Seq<Seq<char>>) -> Result<ReplayView, Seq<char>>
    decreases rest.len(),
{
    if rest.len() == 0 {
        Ok(a)
    } else {
        match replay_flag(a, rest) {
            Ok((a, n)) => if 0 < n <= rest.len() {
                replay_flags(a, rest.skip(n))
            } else {
                Ok(a)
            },
            Err(why) => Err(why),
        }
    }
}

fn take_replay_flag(a: &mut ReplayArgs, args: &Vec<String>, at: usize) -> (r: Result<usize, String>)
    requires
        at < args@.len(),
    ensures
        match (r, replay_flag(old(a)@, texts(args@).skip(at as int))) {
            (Ok(n), Ok((set, taken))) => 0 < n && at + n <= args@.len() && n == taken && final(a)@
                == set,
            (Err(text), Err(why)) => text@ == why,
            _ => false,
        },
{
    let ghost rest = texts(args@).skip(at as int);
    assert(rest[0] == args@[at as int]@);
    let flag = args[at].as_str();
    if same_text(flag, "--fixture") {
        match take_value(args, at) {
            Ok(v) => {
                proof {
                    lemma_texts_push(a.fixtures@, v);
                }
                a.fixtures.push(v);
                Ok(2)
            },
            Err(why) => Err(why),
        }
    } else if same_text(flag, "--minutes") {
        match take_number(args, at, u64::MAX) {
            Ok(v) => {
                add_duration(&mut a.duration, v as u128 * 60_000_000_000);
                Ok(2)
            },
            Err(why) => Err(why),
        }
    } else if same_text(flag, "--seconds") {
        match take_number(args, at, u64::MAX) {
            Ok(v) => {
                add_duration(&mut a.duration, v as u128 * 1_000_000_000);
                Ok(2)
            },
            Err(why) => Err(why),
        }
    } else if same_text(flag, "--content") {
        match take_value(args, at) {
            Ok(word) => {
                if same_text(word.as_str(), "generated") {
                    a.mode = Mode::Generated;
                    Ok(2)
                } else if same_text(word.as_str(), "recorded") {
                    a.mode = Mode::Recorded;
                    Ok(2)
                } else {
                    let mut text = "--content is generated or recorded, not ".to_owned();
                    text.append(word.as_str());
                    Err(text)
                }
            },
            Err(why) => Err(why),
        }
    } else if same_text(flag, "--idle-threshold-ms") {
        match take_number(args, at, u64::MAX) {
            Ok(v) => {
                a.idle_threshold = v as u128 * 1_000_000;
                Ok(2)
            },
            Err(why) => Err(why),
        }
    } else if same_text(flag, "--idle-divisor") {
        match take_number(args, at, u64::MAX) {
            Ok(v) => {
                a.idle_divisor = v;
                Ok(2)
            },
            Err(why) => Err(why),
        }
    } else if same_text(flag, "--monitor-out") {
        match take_value(args, at) {
            Ok(v) => {
                a.monitor_out = Some(v);
                Ok(2)
            },
            Err(why) => Err(why),
        }
    } else if same_text(flag, "--monitor-interval-secs") {
        match take_number(args, at, u64::MAX) {
            Ok(v) => {
                a.monitor_interval = v as u128 * 1_000_000_000;
                Ok(2)
            },
            Err(why) => Err(why),
        }
    } else if same_text(flag, "--warmup-secs") {
        match take_number(args, at, u64::MAX) {
            Ok(v) => {
                a.warmup = v as u128 * 1_000_000_000;
                Ok(2)
            },
            Err(why) => Err(why),
        }
    } else if same_text(flag, "--out") {
        match take_value(args, at) {
            Ok(v) => {
                a.out = Some(v);
                Ok(2)
            },
            Err(why) => Err(why),
        }
    } else {
        let mut text = "replay: unknown flag ".to_owned();
        text.append(flag);
        Err(text)
    }
}

fn take_replay_flags(a: &mut ReplayArgs, args: &Vec<String>) -> (r: Result<(), String>)
    ensures
        match (r, replay_flags(old(a)@, texts(args@))) {
            (Ok(()), Ok(set)) => final(a)@ == set,
            (Err(text), Err(why)) => text@ == why,
            _ => false,
        },
{
    let ghost all = texts(args@);
    let ghost goal = replay_flags(a@, all);
    let mut at: usize = 0;
    assert(all.skip(0) =~= all);
    while at < args.len()
        invariant
            all == texts(args@),
            at <= args@.len(),
            goal == replay_flags(old(a)@, all),
            goal == replay_flags(a@, all.skip(at as int)),
        decreases args@.len() - at,
    {
        let n = match take_replay_flag(a, args, at) {
            Ok(n) => n,
            Err(why) => {
                return Err(why);
            },
        };
        assert(all.skip(at as int).skip(n as int) =~= all.skip(at + n));
        at = at + n;
    }
    Ok(())
}

/// What the command line of the latency bench says.
#[derive(Debug)]
pub struct LatencyArgs {
    /// Measured samples per direction.
    pub samples: usize,
    /// Spacing of the first-byte markers, in microseconds.
    pub interval_us: u64,
    /// Samples thrown away at the start.
    pub discard: usize,
    /// Fixtures to replay in the background.
    pub load: Vec<String>,
    /// Where to write the report.
    pub out: Option<String>,
}

/// The contents of a `LatencyArgs`.
pub struct LatencyView {
    pub samples: usize,
    pub interval_us: u64,
    pub discard: usize,
    pub load: Seq<Seq<char>>,
    pub out: Option<Seq<char>>,
}

impl View for LatencyArgs {
    type V = LatencyView;

    open spec fn view(&self) -> LatencyView {
        LatencyView {
            samples: self.samples,
            interval_us: self.interval_us,
            discard: self.discard,
            load: texts(self.load@),
            out: optional_text(self.out),
        }
    }
}

/// What the flag at the front of a command line sets, and how many words it takes.
pub open spec fn latency_flag(a: LatencyView, rest: Seq<Seq<char>>) -> Step<LatencyView> {
    if rest[0] == "--samples"@ {
        match flag_number(rest, usize::MAX as nat) {
            Ok(v) => Ok((LatencyView { samples: v as usize, ..a }, 2)),
            Err(why) => Err(why),
        }
    } else if rest[0] == "--interval-us"@ {
        match flag_number(rest, u64::MAX as nat) {
            Ok(v) => Ok((LatencyView { interval_us: v, ..a }, 2)),
            Err(why) => Err(why),
        }
    } else if rest[0] == "--discard"@ {
        match flag_number(rest, usize::MAX as nat) {
            Ok(v) => Ok((LatencyView { discard: v as usize, ..a }, 2)),
            Err(why) => Err(why),
        }
    } else if rest[0] == "--load"@ {
        match flag_value(rest) {
            Ok(v) => Ok((LatencyView { load: a.load.push(v), ..a }, 2)),
            Err(why) => Err(why),
        }
    } else if rest[0] == "--out"@ {
        match flag_value(rest) {
            Ok(v) => Ok((LatencyView { out: Some(v), ..a }, 2)),
            Err(why) => Err(why),
        }
    } else {
        Err("bench-latency: unknown flag "@ + rest[0])
    }
}

/// What a command line sets, on top of what is set already: flag by flag, up to the
/// first error.
pub open spec fn latency_flags(a: LatencyView, rest: Seq<Seq<char>>) -> Result<LatencyView, Seq<char>>
    decreases rest.len(),
{
    if rest.len() == 0 {
        Ok(a)
    } else {
        match latency_flag(a, rest) {
            Ok((a, n)) => if 0 < n <= rest.len() {
                latency_flags(a, rest.skip(n))
            } else {
                Ok(a)
            },
            Err(why) => Err(why),
        }
    }
}

fn take_latency_flag(a: &mut LatencyArgs, args: &Vec<String>, at: usize) -> (r: Result<usize, String>)
    requires
        at < args@.len(),
    ensures
        match (r, latency_flag(old(a)@, texts(args@).skip(at as int))) {
            (Ok(n), Ok((set, taken))) => 0 < n && at + n <= args@.len() && n == taken && final(a)@
                == set,
            (Err(text), Err(why)) => text@ == why,
            _ => false,
        },
{
    let ghost rest = texts(args@).skip(at as int);
    assert(rest[0] == args@[at as int]@);
    let flag = args[at].as_str();
    if same_text(flag, "--samples") {
        match take_number(args, at, usize::MAX as u64) {
            Ok(v) => {
                a.samples = v as usize;
                Ok(2)
            },
            Err(why) => Err(why),
        }
    } else if same_text(flag, "--interval-us") {
        match take_number(args, at, u64::MAX) {
            Ok(v) => {
                a.interval_us = v;
                Ok(2)
            },
            Err(why) => Err(why),
        }
    } else if same_text(flag, "--discard") {
        match take_number(args, at, usize::MAX as u64) {
            Ok(v) => {
                a.discard = v as usize;
                Ok(2)
            },
            Err(why) => Err(why),
        }
    } else if same_text(flag, "--load") {
        match take_value(args, at) {
            Ok(v) => {
                proof {
                    lemma_texts_push(a.load@, v);
                }
                a.load.push(v);
                Ok(2)
            },
            Err(why) => Err(why),
        }
    } else if same_text(flag, "--out") {
        match take_value(args, at) {
            Ok(v) => {
                a.out = Some(v);
                Ok(2)
            },
            Err(why) => Err(why),
        }
    } else {
        let mut text = "bench-latency: unknown flag ".to_owned();
        text.append(flag);
        Err(text)
    }
}

fn take_latency_flags(a: &mut LatencyArgs, args: &Vec<String>) -> (r: Result<(), String>)
    ensures
        match (r, latency_flags(old(a)@, texts(args@))) {
            (Ok(()), Ok(set)) => final(a)@ == set,
            (Err(text), Err(why)) => text@ == why,
            _ => false,
        },
{
    let ghost all = texts(args@);
    let ghost goal = latency_flags(a@, all);
    let mut at: usize = 0;
    assert(all.skip(0) =~= all);
    while at < args.len()
        invariant
            all == texts(args@),
            at <= args@.len(),
            goal == latency_flags(old(a)@, all),
            goal == latency_flags(a@, all.skip(at as int)),
        decreases args@.len() - at,
    {
        let n = match take_latency_flag(a, args, at) {
            Ok(n) => n,
            Err(why) => {
                return Err(why);
            },
        };
        assert(all.skip(at as int).skip(n as int) =~= all.skip(at + n));
        at = at + n;
    }
    Ok(())
}

/// What the command line of the throughput bench says.
#[derive(Debug)]
pub struct ThroughputArgs {
    /// Payload lines per session.
    pub lines: u64,
    /// Concurrent sessions.
    pub sessions: usize,
    /// Bytes to a line.
    pub line_bytes: usize,
    /// Fixtures to replay in the background.
    pub load: Vec<String>,
    /// Where to write the report.
    pub out: Option<String>,
}

/// The contents of a `ThroughputArgs`.
pub struct ThroughputView {
    pub lines: u64,
    pub sessions: usize,
    pub line_bytes: usize,
    pub load: Seq<Seq<char>>,
    pub out: Option<Seq<char>>,
}

impl View for ThroughputArgs {
    type V = ThroughputView;

    open spec fn view(&self) -> ThroughputView {
        ThroughputView {
            lines: self.lines,
            sessions: self.sessions,
            line_bytes: self.line_bytes,
            load: texts(self.load@),
            out: optional_text(self.out),
        }
    }
}

/// What the flag at the front of a command line sets, and how many words it takes.
pub open spec fn throughput_flag(a: ThroughputView, rest: Seq<Seq<char>>) -> Step<ThroughputView> {
    if rest[0] == "--lines"@ {
        match flag_number(rest, u64::MAX as nat) {
            Ok(v) => Ok((ThroughputView { lines: v, ..a }, 2)),
            Err(why) => Err(why),
        }
    } else if rest[0] == "--sessions"@ {
        match flag_number(rest, usize::MAX as nat) {
            Ok(v) => Ok((ThroughputView { sessions: v as usize, ..a }, 2)),
            Err(why) => Err(why),
        }
    } else if rest[0] == "--line-bytes"@ {
        match flag_number(rest, usize::MAX as nat) {
            Ok(v) => Ok((ThroughputView { line_bytes: v as usize, ..a }, 2)),
            Err(why) => Err(why),
        }
    } else if rest[0] == "--load"@ {
        match flag_value(rest) {
            Ok(v) => Ok((ThroughputView { load: a.load.push(v), ..a }, 2)),
            Err(why) => Err(why),
        }
    } else if rest[0] == "--out"@ {
        match flag_value(rest) {
            Ok(v) => Ok((ThroughputView { out: Some(v), ..a }, 2)),
            Err(why) => Err(why),
        }
    } else {
        Err("bench-throughput: unknown flag "@ + rest[0])
    }
}

/// What a command line sets, on top of what is set already: flag by flag, up to the
/// first error.
pub open spec fn throughput_flags(a: ThroughputView, rest: Seq<Seq<char>>) -> Result<ThroughputView, Seq<char>>
    decreases rest.len(),
{
    if rest.len() == 0 {
        Ok(a)
    } else {
        match throughput_flag(a, rest) {
            Ok((a, n)) => if 0 < n <= rest.len() {
                throughput_flags(a, rest.skip(n))
            } else {
                Ok(a)
            },
            Err(why) => Err(why),
        }
    }
}

fn take_throughput_flag(a: &mut ThroughputArgs, args: &Vec<String>, at: usize) -> (r: Result<usize, String>)
    requires
        at < args@.len(),
    ensures
        match (r, throughput_flag(old(a)@, texts(args@).skip(at as int))) {
            (Ok(n), Ok((set, taken))) => 0 < n && at + n <= args@.len() && n == taken && final(a)@
                == set,
            (Err(text), Err(why)) => text@ == why,
            _ => false,
        },
{
    let ghost rest = texts(args@).skip(at as int);
    assert(rest[0] == args@[at as int]@);
    let flag = args[at].as_str();
    if same_text(flag, "--lines") {
        match take_number(args, at, u64::MAX) {
            Ok(v) => {
                a.lines = v;
                Ok(2)
            },
            Err(why) => Err(why),
        }
    } else if same_text(flag, "--sessions") {
        match take_number(args, at, usize::MAX as u64) {
            Ok(v) => {
                a.sessions = v as usize;
                Ok(2)
            },
            Err(why) => Err(why),
        }
    } else if same_text(flag, "--line-bytes") {
        match take_number(args, at, usize::MAX as u64) {
            Ok(v) => {
                a.line_bytes = v as usize;
                Ok(2)
            },
            Err(why) => Err(why),
        }
    } else if same_text(flag, "--load") {
        match take_value(args, at) {
            Ok(v) => {
                proof {
                    lemma_texts_push(a.load@, v);
                }
                a.load.push(v);
                Ok(2)
            },
            Err(why) => Err(why),
        }
    } else if same_text(flag, "--out") {
        match take_value(args, at) {
            Ok(v) => {
                a.out = Some(v);
                Ok(2)
            },
            Err(why) => Err(why),
        }
    } else {
        let mut text = "bench-throughput: unknown flag ".to_owned();
        text.append(flag);
        Err(text)
    }
}

fn take_throughput_flags(a: &mut ThroughputArgs, args: &Vec<String>) -> (r: Result<(), String>)
    ensures
        match (r, throughput_flags(old(a)@, texts(args@))) {
            (Ok(()), Ok(set)) => final(a)@ == set,
            (Err(text), Err(why)) => text@ == why,
            _ => false,
        },
{
    let ghost all = texts(args@);
    let ghost goal = throughput_flags(a@, all);
    let mut at: usize = 0;
    assert(all.skip(0) =~= all);
    while at < args.len()
        invariant
            all == texts(args@),
            at <= args@.len(),
            goal == throughput_flags(old(a)@, all),
            goal == throughput_flags(a@, all.skip(at as int)),
        decreases args@.len() - at,
    {
        let n = match take_throughput_flag(a, args, at) {
            Ok(n) => n,
            Err(why) => {
                return Err(why);
            },
        };
        assert(all.skip(at as int).skip(n as int) =~= all.skip(at + n));
        at = at + n;
    }
    Ok(())
}

/// What the command line of the regression gate says.
#[derive(Debug)]
pub struct CompareArgs {
    /// The report to hold against.
    pub baseline: Option<String>,
    /// The report that is held.
    pub current: Option<String>,
}

/// The contents of a `CompareArgs`.
pub struct CompareView {
    pub baseline: Option<Seq<char>>,
    pub current: Option<Seq<char>>,
}

impl View for CompareArgs {
    type V = CompareView;

    open spec fn view(&self) -> CompareView {
        CompareView {
            baseline: optional_text(self.baseline),
            current: optional_text(self.current),
        }
    }
}

/// What the flag at the front of a command line sets, and how many words it takes.
pub open spec fn compare_flag(a: CompareView, rest: Seq<Seq<char>>) -> Step<CompareView> {
    if rest[0] == "--baseline"@ {
        match flag_value(rest) {
            Ok(v) => Ok((CompareView { baseline: Some(v), ..a }, 2)),
            Err(why) => Err(why),
        }
    } else if rest[0] == "--current"@ {
        match flag_value(rest) {
            Ok(v) => Ok((CompareView { current: Some(v), ..a }, 2)),
            Err(why) => Err(why),
        }
    } else {
        Err("compare: unknown flag "@ + rest[0])
    }
}

/// What a command line sets, on top of what is set already: flag by flag, up to the
/// first error.
pub open spec fn compare_flags(a: CompareView, rest: Seq<Seq<char>>) -> Result<CompareView, Seq<char>>
    decreases rest.len(),
{
    if rest.len() == 0 {
        Ok(a)
    } else {
        match compare_flag(a, rest) {
            Ok((a, n)) => if 0 < n <= rest.len() {
                compare_flags(a, rest.skip(n))
            } else {
                Ok(a)
            },
            Err(why) => Err(why),
        }
    }
}

fn take_compare_flag(a: &mut CompareArgs, args: &Vec<String>, at: usize) -> (r: Result<usize, String>)
    requires
        at < args@.len(),
    ensures
        match (r, compare_flag(old(a)@, texts(args@).skip(at as int))) {
            (Ok(n), Ok((set, taken))) => 0 < n && at + n <= args@.len() && n == taken && final(a)@
                == set,
            (Err(text), Err(why)) => text@ == why,
            _ => false,
        },
{
    let ghost rest = texts(args@).skip(at as int);
    assert(rest[0] == args@[at as int]@);
    let flag = args[at].as_str();
    if same_text(flag, "--baseline") {
        match take_value(args, at) {
            Ok(v) => {
                a.baseline = Some(v);
                Ok(2)
            },
            Err(why) => Err(why),
        }
    } else if same_text(flag, "--current") {
        match take_value(args, at) {
            Ok(v) => {
                a.current = Some(v);
                Ok(2)
            },
            Err(why) => Err(why),
        }
    } else {
        let mut text = "compare: unknown flag ".to_owned();
        text.append(flag);
        Err(text)
    }
}

fn take_compare_flags(a: &mut CompareArgs, args: &Vec<String>) -> (r: Result<(), String>)
    ensures
        match (r, compare_flags(old(a)@, texts(args@))) {
            (Ok(()), Ok(set)) => final(a)@ == set,
            (Err(text), Err(why)) => text@ == why,
            _ => false,
        },
{
    let ghost all = texts(args@);
    let ghost goal = compare_flags(a@, all);
    let mut at: usize = 0;
    assert(all.skip(0) =~= all);
    while at < args.len()
        invariant
            all == texts(args@),
            at <= args@.len(),
            goal == compare_flags(old(a)@, all),
            goal == compare_flags(a@, all.skip(at as int)),
        decreases args@.len() - at,
    {
        let n = match take_compare_flag(a, args, at) {
            Ok(n) => n,
            Err(why) => {
                return Err(why);
            },
        };
        assert(all.skip(at as int).skip(n as int) =~= all.skip(at + n));
        at = at + n;
    }
    Ok(())
}

/// What the command line of the replaying child says.
#[derive(Debug)]
pub struct ChildArgs {
    /// The plan to perform.
    pub plan: Option<String>,
    /// The bytes of a recorded plan.
    pub bytes: Option<String>,
}

/// The contents of a `ChildArgs`.
pub struct ChildView {
    pub plan: Option<Seq<char>>,
    pub bytes: Option<Seq<char>>,
}

impl View for ChildArgs {
    type V = ChildView;

    open spec fn view(&self) -> ChildView {
        ChildView {
            plan: optional_text(self.plan),
            bytes: optional_text(self.bytes),
        }
    }
}

/// What the flag at the front of a command line sets, and how many words it takes.
pub open spec fn child_flag(a: ChildView, rest: Seq<Seq<char>>) -> Step<ChildView> {
    if rest[0] == "--plan"@ {
        match flag_value(rest) {
            Ok(v) => Ok((ChildView { plan: Some(v), ..a }, 2)),
            Err(why) => Err(why),
        }
    } else if rest[0] == "--bytes"@ {
        match flag_value(rest) {
            Ok(v) => Ok((ChildView { bytes: Some(v), ..a }, 2)),
            Err(why) => Err(why),
        }
    } else {
        Err("unknown argument: "@ + rest[0] + ". usage: replay-child --plan <file> [--bytes <file>]"@)
    }
}

/// What a command line sets, on top of what is set already: flag by flag, up to the
/// first error.
pub open spec fn child_flags(a: ChildView, rest: Seq<Seq<char>>) -> Result<ChildView, Seq<char>>
    decreases rest.len(),
{
    if rest.len() == 0 {
        Ok(a)
    } else {
        match child_flag(a, rest) {
            Ok((a, n)) => if 0 < n <= rest.len() {
                child_flags(a, rest.skip(n))
            } else {
                Ok(a)
            },
            Err(why) => Err(why),
        }
    }
}

fn take_child_flag(a: &mut ChildArgs, args: &Vec<String>, at: usize) -> (r: Result<usize, String>)
    requires
        at < args@.len(),
    ensures
        match (r, child_flag(old(a)@, texts(args@).skip(at as int))) {
            (Ok(n), Ok((set, taken))) => 0 < n && at + n <= args@.len() && n == taken && final(a)@
                == set,
            (Err(text), Err(why)) => text@ == why,
            _ => false,
        },
{
    let ghost rest = texts(args@).skip(at as int);
    assert(rest[0] == args@[at as int]@);
    let flag = args[at].as_str();
    if same_text(flag, "--plan") {
        match take_value(args, at) {
            Ok(v) => {
                a.plan = Some(v);
                Ok(2)
            },
            Err(why) => Err(why),
        }
    } else if same_text(flag, "--bytes") {
        match take_value(args, at) {
            Ok(v) => {
                a.bytes = Some(v);
                Ok(2)
            },
            Err(why) => Err(why),
        }
    } else {
        let mut text = "unknown argument: ".to_owned();
        text.append(flag);
        text.append(". usage: replay-child --plan <file> [--bytes <file>]");
        Err(text)
    }
}

fn take_child_flags(a: &mut ChildArgs, args: &Vec<String>) -> (r: Result<(), String>)
    ensures
        match (r, child_flags(old(a)@, texts(args@))) {
            (Ok(()), Ok(set)) => final(a)@ == set,
            (Err(text), Err(why)) => text@ == why,
            _ => false,
        },
{
    let ghost all = texts(args@);
    let ghost goal = child_flags(a@, all);
    let mut at: usize = 0;
    assert(all.skip(0) =~= all);
    while at < args.len()
        invariant
            all == texts(args@),
            at <= args@.len(),
            goal == child_flags(old(a)@, all),
            goal == child_flags(a@, all.skip(at as int)),
        decreases args@.len() - at,
    {
        let n = match take_child_flag(a, args, at) {
            Ok(n) => n,
            Err(why) => {
                return Err(why);
            },
        };
        assert(all.skip(at as int).skip(n as int) =~= all.skip(at + n));
        at = at + n;
    }
    Ok(())
}

/// What the command line of the stand-in lane says.
#[derive(Debug)]
pub struct StandinArgs {
    /// The first-token budget.
    pub first_token_ms: u64,
    /// How long a step may take.
    pub timeout: u128,
}

/// The contents of a `StandinArgs`.
pub struct StandinView {
    pub first_token_ms: u64,
    pub timeout: u128,
}

impl View for StandinArgs {
    type V = StandinView;

    open spec fn view(&self) -> StandinView {
        StandinView {
            first_token_ms: self.first_token_ms,
            timeout: self.timeout,
        }
    }
}

/// What the flag at the front of a command line sets, and how many words it takes.
pub open spec fn standin_flag(a: StandinView, rest: Seq<Seq<char>>) -> Step<StandinView> {
    if rest[0] == "--first-token-ms"@ {
        match flag_number(rest, u64::MAX as nat) {
            Ok(v) => Ok((StandinView { first_token_ms: v, ..a }, 2)),
            Err(why) => Err(why),
        }
    } else if rest[0] == "--timeout-secs"@ {
        match flag_number(rest, u64::MAX as nat) {
            Ok(v) => Ok((StandinView { timeout: (v * 1_000_000_000) as u128, ..a }, 2)),
            Err(why) => Err(why),
        }
    } else {
        Err("unknown standin option: "@ + rest[0])
    }
}

/// What a command line sets, on top of what is set already: flag by flag, up to the
/// first error.
pub open spec fn standin_flags(a: StandinView, rest: Seq<Seq<char>>) -> Result<StandinView, Seq<char>>
    decreases rest.len(),
{
    if rest.len() == 0 {
        Ok(a)
    } else {
        match standin_flag(a, rest) {
            Ok((a, n)) => if 0 < n <= rest.len() {
                standin_flags(a, rest.skip(n))
            } else {
                Ok(a)
            },
            Err(why) => Err(why),
        }
    }
}

fn take_standin_flag(a: &mut StandinArgs, args: &Vec<String>, at: usize) -> (r: Result<usize, String>)
    requires
        at < args@.len(),
    ensures
        match (r, standin_flag(old(a)@, texts(args@).skip(at as int))) {
            (Ok(n), Ok((set, taken))) => 0 < n && at + n <= args@.len() && n == taken && final(a)@
                == set,
            (Err(text), Err(why)) => text@ == why,
            _ => false,
        },
{
    let ghost rest = texts(args@).skip(at as int);
    assert(rest[0] == args@[at as int]@);
    let flag = args[at].as_str();
    if same_text(flag, "--first-token-ms") {
        match take_number(args, at, u64::MAX) {
            Ok(v) => {
                a.first_token_ms = v;
                Ok(2)
            },
            Err(why) => Err(why),
        }
    } else if same_text(flag, "--timeout-secs") {
        match take_number(args, at, u64::MAX) {
            Ok(v) => {
                a.timeout = v as u128 * 1_000_000_000;
                Ok(2)
            },
            Err(why) => Err(why),
        }
    } else {
        let mut text = "unknown standin option: ".to_owned();
        text.append(flag);
        Err(text)
    }
}

fn take_standin_flags(a: &mut StandinArgs, args: &Vec<String>) -> (r: Result<(), String>)
    ensures
        match (r, standin_flags(old(a)@, texts(args@))) {
            (Ok(()), Ok(set)) => final(a)@ == set,
            (Err(text), Err(why)) => text@ == why,
            _ => false,
        },
{
    let ghost all = texts(args@);
    let ghost goal = standin_flags(a@, all);
    let mut at: usize = 0;
    assert(all.skip(0) =~= all);
    while at < args.len()
        invariant
            all == texts(args@),
            at <= args@.len(),
            goal == standin_flags(old(a)@, all),
            goal == standin_flags(a@, all.skip(at as int)),
        decreases args@.len() - at,
    {
        let n = match take_standin_flag(a, args, at) {
            Ok(n) => n,
            Err(why) => {
                return Err(why);
            },
        };
        assert(all.skip(at as int).skip(n as int) =~= all.skip(at + n));
        at = at + n;
    }
    Ok(())
}

/// What the command line of a live lane says.
#[derive(Debug)]
pub struct ProbeArgs {
    /// The binary to launch.
    pub claude_bin: String,
    /// The model to pass on.
    pub model: Option<String>,
    /// The first-token budget.
    pub first_token_ms: u64,
    /// Where to persist the capture.
    pub capture: Option<String>,
    /// Whether to keep the work directory.
    pub keep_workdir: bool,
}

/// The contents of a `ProbeArgs`.
pub struct ProbeView {
    pub claude_bin: Seq<char>,
    pub model: Option<Seq<char>>,
    pub first_token_ms: u64,
    pub capture: Option<Seq<char>>,
    pub keep_workdir: bool,
}

impl View for ProbeArgs {
    type V = ProbeView;

    open spec fn view(&self) -> ProbeView {
        ProbeView {
            claude_bin: self.claude_bin@,
            model: optional_text(self.model),
            first_token_ms: self.first_token_ms,
            capture: optional_text(self.capture),
            keep_workdir: self.keep_workdir,
        }
    }
}

/// What the flag at the front of a command line sets, and how many words it takes.
pub open spec fn probe_flag(a: ProbeView, live: Seq<char>, rest: Seq<Seq<char>>) -> Step<ProbeView> {
    if rest[0] == "--"@ + live + "-bin"@ {
        match flag_value(rest) {
            Ok(v) => Ok((ProbeView { claude_bin: v, ..a }, 2)),
            Err(why) => Err(why),
        }
    } else if rest[0] == "--model"@ {
        match flag_value(rest) {
            Ok(v) => Ok((ProbeView { model: Some(v), ..a }, 2)),
            Err(why) => Err(why),
        }
    } else if rest[0] == "--first-token-ms"@ {
        match flag_number(rest, u64::MAX as nat) {
            Ok(v) => Ok((ProbeView { first_token_ms: v, ..a }, 2)),
            Err(why) => Err(why),
        }
    } else if rest[0] == "--capture"@ {
        match flag_value(rest) {
            Ok(v) => Ok((ProbeView { capture: Some(v), ..a }, 2)),
            Err(why) => Err(why),
        }
    } else if rest[0] == "--keep-workdir"@ {
        Ok((ProbeView { keep_workdir: true, ..a }, 1))
    } else {
        Err("unknown probe option: "@ + rest[0])
    }
}

/// What a command line sets, on top of what is set already: flag by flag, up to the
/// first error.
pub open spec fn probe_flags(a: ProbeView, live: Seq<char>, rest: Seq<Seq<char>>) -> Result<
    ProbeView,
    Seq<char>,
>
    decreases rest.len(),
{
    if rest.len() == 0 {
        Ok(a)
    } else {
        match probe_flag(a, live, rest) {
            Ok((a, n)) => if 0 < n <= rest.len() {
                probe_flags(a, live, rest.skip(n))
            } else {
                Ok(a)
            },
            Err(why) => Err(why),
        }
    }
}

fn take_probe_flag(a: &mut ProbeArgs, live: &str, args: &Vec<String>, at: usize) -> (r: Result<
    usize,
    String,
>)
    requires
        at < args@.len(),
    ensures
        match (r, probe_flag(old(a)@, live@, texts(args@).skip(at as int))) {
            (Ok(n), Ok((set, taken))) => 0 < n && at + n <= args@.len() && n == taken && final(a)@
                == set,
            (Err(text), Err(why)) => text@ == why,
            _ => false,
        },
{
    let ghost rest = texts(args@).skip(at as int);
    assert(rest[0] == args@[at as int]@);
    let flag = args[at].as_str();
    let mut bin = "--".to_owned();
    bin.append(live);
    bin.append("-bin");
    if same_text(flag, bin.as_str()) {
        match take_value(args, at) {
            Ok(v) => {
                a.claude_bin = v;
                Ok(2)
            },
            Err(why) => Err(why),
        }
    } else if same_text(flag, "--model") {
        match take_value(args, at) {
            Ok(v) => {
                a.model = Some(v);
                Ok(2)
            },
            Err(why) => Err(why),
        }
    } else if same_text(flag, "--first-token-ms") {
        match take_number(args, at, u64::MAX) {
            Ok(v) => {
                a.first_token_ms = v;
                Ok(2)
            },
            Err(why) => Err(why),
        }
    } else if same_text(flag, "--capture") {
        match take_value(args, at) {
            Ok(v) => {
                a.capture = Some(v);
                Ok(2)
            },
            Err(why) => Err(why),
        }
    } else if same_text(flag, "--keep-workdir") {
        a.keep_workdir = true;
        Ok(1)
    } else {
        let mut text = "unknown probe option: ".to_owned();
        text.append(flag);
        Err(text)
    }
}

fn take_probe_flags(a: &mut ProbeArgs, live: &str, args: &Vec<String>) -> (r: Result<(), String>)
    ensures
        match (r, probe_flags(old(a)@, live@, texts(args@))) {
            (Ok(()), Ok(set)) => final(a)@ == set,
            (Err(text), Err(why)) => text@ == why,
            _ => false,
        },
{
    let ghost all = texts(args@);
    let ghost goal = probe_flags(a@, live@, all);
    let mut at: usize = 0;
    assert(all.skip(0) =~= all);
    while at < args.len()
        invariant
            all == texts(args@),
            at <= args@.len(),
            goal == probe_flags(old(a)@, live@, all),
            goal == probe_flags(a@, live@, all.skip(at as int)),
        decreases args@.len() - at,
    {
        let n = match take_probe_flag(a, live, args, at) {
            Ok(n) => n,
            Err(why) => {
                return Err(why);
            },
        };
        assert(all.skip(at as int).skip(n as int) =~= all.skip(at + n));
        at = at + n;
    }
    Ok(())
}

/// What the command line of a recording says.
#[derive(Debug)]
pub struct RecordArgs {
    /// The script to record.
    pub script: String,
    /// The fixture directory.
    pub out: String,
    /// Terminal columns.
    pub cols: u16,
    /// Terminal rows.
    pub rows: u16,
    /// The child binary.
    pub cli_bin: Option<String>,
    /// The version label of a generic fixture.
    pub cli_version: Option<String>,
    /// The model to pass on.
    pub model: Option<String>,
    /// How the CLI was installed.
    pub install: Option<String>,
    /// The first-token budget.
    pub first_token_ms: u64,
    /// Whether to keep the work directory.
    pub keep_workdir: bool,
}

/// The contents of a `RecordArgs`.
pub struct RecordView {
    pub script: Seq<char>,
    pub out: Seq<char>,
    pub cols: u16,
    pub rows: u16,
    pub cli_bin: Option<Seq<char>>,
    pub cli_version: Option<Seq<char>>,
    pub model: Option<Seq<char>>,
    pub install: Option<Seq<char>>,
    pub first_token_ms: u64,
    pub keep_workdir: bool,
}

impl View for RecordArgs {
    type V = RecordView;

    open spec fn view(&self) -> RecordView {
        RecordView {
            script: self.script@,
            out: self.out@,
            cols: self.cols,
            rows: self.rows,
            cli_bin: optional_text(self.cli_bin),
            cli_version: optional_text(self.cli_version),
            model: optional_text(self.model),
            install: optional_text(self.install),
            first_token_ms: self.first_token_ms,
            keep_workdir: self.keep_workdir,
        }
    }
}

/// What the flag at the front of a command line sets, and how many words it takes.
pub open spec fn record_flag(a: RecordView, rest: Seq<Seq<char>>) -> Step<RecordView> {
    if rest[0] == "--script"@ {
        match flag_value(rest) {
            Ok(v) => Ok((RecordView { script: v, ..a }, 2)),
            Err(why) => Err(why),
        }
    } else if rest[0] == "--out"@ {
        match flag_value(rest) {
            Ok(v) => Ok((RecordView { out: v, ..a }, 2)),
            Err(why) => Err(why),
        }
    } else if rest[0] == "--cols"@ {
        match flag_dimension(rest) {
            Ok(v) => Ok((RecordView { cols: v as u16, ..a }, 2)),
            Err(why) => Err(why),
        }
    } else if rest[0] == "--rows"@ {
        match flag_dimension(rest) {
            Ok(v) => Ok((RecordView { rows: v as u16, ..a }, 2)),
            Err(why) => Err(why),
        }
    } else if rest[0] == "--cli-bin"@ {
        match flag_value(rest) {
            Ok(v) => Ok((RecordView { cli_bin: Some(v), ..a }, 2)),
            Err(why) => Err(why),
        }
    } else if rest[0] == "--cli-version"@ {
        match flag_value(rest) {
            Ok(v) => Ok((RecordView { cli_version: Some(v), ..a }, 2)),
            Err(why) => Err(why),
        }
    } else if rest[0] == "--model"@ {
        match flag_value(rest) {
            Ok(v) => Ok((RecordView { model: Some(v), ..a }, 2)),
            Err(why) => Err(why),
        }
    } else if rest[0] == "--install"@ {
        match flag_value(rest) {
            Ok(v) => Ok((RecordView { install: Some(v), ..a }, 2)),
            Err(why) => Err(why),
        }
    } else if rest[0] == "--first-token-ms"@ {
        match flag_number(rest, u64::MAX as nat) {
            Ok(v) => Ok((RecordView { first_token_ms: v, ..a }, 2)),
            Err(why) => Err(why),
        }
    } else if rest[0] == "--keep-workdir"@ {
        Ok((RecordView { keep_workdir: true, ..a }, 1))
    } else {
        Err("unknown record option: "@ + rest[0])
    }
}

/// What a command line sets, on top of what is set already: flag by flag, up to the
/// first error.
pub open spec fn record_flags(a: RecordView, rest: Seq<Seq<char>>) -> Result<RecordView, Seq<char>>
    decreases rest.len(),
{
    if rest.len() == 0 {
        Ok(a)
    } else {
        match record_flag(a, rest) {
            Ok((a, n)) => if 0 < n <= rest.len() {
                record_flags(a, rest.skip(n))
            } else {
                Ok(a)
            },
            Err(why) => Err(why),
        }
    }
}

fn take_record_flag(a: &mut RecordArgs, args: &Vec<String>, at: usize) -> (r: Result<usize, String>)
    requires
        at < args@.len(),
    ensures
        match (r, record_flag(old(a)@, texts(args@).skip(at as int))) {
            (Ok(n), Ok((set, taken))) => 0 < n && at + n <= args@.len() && n == taken && final(a)@
                == set,
            (Err(text), Err(why)) => text@ == why,
            _ => false,
        },
{
    let ghost rest = texts(args@).skip(at as int);
    assert(rest[0] == args@[at as int]@);
    let flag = args[at].as_str();
    if same_text(flag, "--script") {
        match take_value(args, at) {
            Ok(v) => {
                a.script = v;
                Ok(2)
            },
            Err(why) => Err(why),
        }
    } else if same_text(flag, "--out") {
        match take_value(args, at) {
            Ok(v) => {
                a.out = v;
                Ok(2)
            },
            Err(why) => Err(why),
        }
    } else if same_text(flag, "--cols") {
        match take_dimension(args, at) {
            Ok(v) => {
                a.cols = v as u16;
                Ok(2)
            },
            Err(why) => Err(why),
        }
    } else if same_text(flag, "--rows") {
        match take_dimension(args, at) {
            Ok(v) => {
                a.rows = v as u16;
                Ok(2)
            },
            Err(why) => Err(why),
        }
    } else if same_text(flag, "--cli-bin") {
        match take_value(args, at) {
            Ok(v) => {
                a.cli_bin = Some(v);
                Ok(2)
            },
            Err(why) => Err(why),
        }
    } else if same_text(flag, "--cli-version") {
        match take_value(args, at) {
            Ok(v) => {
                a.cli_version = Some(v);
                Ok(2)
            },
            Err(why) => Err(why),
        }
    } else if same_text(flag, "--model") {
        match take_value(args, at) {
            Ok(v) => {
                a.model = Some(v);
                Ok(2)
            },
            Err(why) => Err(why),
        }
    } else if same_text(flag, "--install") {
        match take_value(args, at) {
            Ok(v) => {
                a.install = Some(v);
                Ok(2)
            },
            Err(why) => Err(why),
        }
    } else if same_text(flag, "--first-token-ms") {
        match take_number(args, at, u64::MAX) {
            Ok(v) => {
                a.first_token_ms = v;
                Ok(2)
            },
            Err(why) => Err(why),
        }
    } else if same_text(flag, "--keep-workdir") {
        a.keep_workdir = true;
        Ok(1)
    } else {
        let mut text = "unknown record option: ".to_owned();
        text.append(flag);
        Err(text)
    }
}

fn take_record_flags(a: &mut RecordArgs, args: &Vec<String>) -> (r: Result<(), String>)
    ensures
        match (r, record_flags(old(a)@, texts(args@))) {
            (Ok(()), Ok(set)) => final(a)@ == set,
            (Err(text), Err(why)) => text@ == why,
            _ => false,
        },
{
    let ghost all = texts(args@);
    let ghost goal = record_flags(a@, all);
    let mut at: usize = 0;
    assert(all.skip(0) =~= all);
    while at < args.len()
        invariant
            all == texts(args@),
            at <= args@.len(),
            goal == record_flags(old(a)@, all),
            goal == record_flags(a@, all.skip(at as int)),
        decreases args@.len() - at,
    {
        let n = match take_record_flag(a, args, at) {
            Ok(n) => n,
            Err(why) => {
                return Err(why);
            },
        };
        assert(all.skip(at as int).skip(n as int) =~= all.skip(at + n));
        at = at + n;
    }
    Ok(())
}

/// Read the command line of the soak lane.
pub fn parse_soak(args: &Vec<String>, line_bytes: usize) -> (r: Result<SoakArgs, String>)
    ensures
        match (
            r,
            soak_flags(
                SoakView {
                    duration: None,
                    rate: 1000,
                    line_bytes,
                    checksum_every: 1000,
                    monitor_out: None,
                    monitor_interval: DEFAULT_INTERVAL,
                    warmup: DEFAULT_WARMUP,
                    out: None,
                },
                texts(args@),
            ),
        ) {
            (Ok(a), Ok(set)) => a@ == set,
            (Err(text), Err(why)) => text@ == why,
            _ => false,
        },
{
    let mut a = SoakArgs {
        duration: None,
        rate: 1000,
        line_bytes,
        checksum_every: 1000,
        monitor_out: None,
        monitor_interval: DEFAULT_INTERVAL,
        warmup: DEFAULT_WARMUP,
        out: None,
    };
    match take_soak_flags(&mut a, args) {
        Ok(()) => Ok(a),
        Err(why) => Err(why),
    }
}

impl SoakArgs {
    /// The options of the lane: half an hour where no duration is said.
    pub fn options(&self) -> (o: crate::soak::Options)
        ensures
            o.duration_ns == match self.duration {
                Some(ns) => ns,
                None => 1_800_000_000_000u128,
            },
            o.lines_per_second == self.rate,
            o.line_bytes == self.line_bytes,
            o.checksum_every == self.checksum_every,
            optional_text(o.monitor_out) == optional_text(self.monitor_out),
            o.monitor_interval_ns == self.monitor_interval,
            o.warmup_ns == self.warmup,
    {
        let mut options = crate::soak::Options::standard(self.line_bytes);
        match self.duration {
            Some(ns) => {
                options.duration_ns = ns;
            },
            None => {},
        }
        options.lines_per_second = self.rate;
        options.checksum_every = self.checksum_every;
        options.monitor_out = match &self.monitor_out {
            Some(path) => Some(path.clone()),
            None => None,
        };
        options.monitor_interval_ns = self.monitor_interval;
        options.warmup_ns = self.warmup;
        options
    }
}

/// The settings of the replay lane before its command line is read.
pub open spec fn replay_defaults() -> ReplayView {
    ReplayView {
        fixtures: Seq::empty(),
        duration: None,
        mode: Mode::Generated,
        idle_threshold: 2_000_000_000,
        idle_divisor: 1,
        monitor_out: None,
        monitor_interval: DEFAULT_INTERVAL,
        warmup: DEFAULT_WARMUP,
        out: None,
    }
}

/// Read the command line of the replay lane, which needs a fixture.
pub fn parse_replay(args: &Vec<String>) -> (r: Result<ReplayArgs, String>)
    ensures
        match (r, replay_flags(replay_defaults(), texts(args@))) {
            (Ok(a), Ok(set)) => a@ == set && set.fixtures.len() > 0,
            (Err(text), Ok(set)) => set.fixtures.len() == 0 && text@
                == "replay needs at least one --fixture"@,
            (Err(text), Err(why)) => text@ == why,
            _ => false,
        },
{
    let mut a = ReplayArgs {
        fixtures: Vec::new(),
        duration: None,
        mode: Mode::Generated,
        idle_threshold: 2_000_000_000,
        idle_divisor: 1,
        monitor_out: None,
        monitor_interval: DEFAULT_INTERVAL,
        warmup: DEFAULT_WARMUP,
        out: None,
    };
    assert(texts(a.fixtures@) =~= Seq::<Seq<char>>::empty());
    match take_replay_flags(&mut a, args) {
        Ok(()) => {},
        Err(why) => {
            return Err(why);
        },
    }
    if a.fixtures.len() == 0 {
        return Err("replay needs at least one --fixture".to_owned());
    }
    Ok(a)
}

impl ReplayArgs {
    /// How the plan is built: half an hour where no duration is said.
    pub fn build(&self, line_bytes: usize) -> (o: BuildOptions)
        ensures
            o == (BuildOptions {
                mode: self.mode,
                duration_ns: match self.duration {
                    Some(ns) => ns,
                    None => 1_800_000_000_000u128,
                },
                idle_threshold_ns: self.idle_threshold,
                idle_divisor: self.idle_divisor,
                line_bytes,
                checksum_every: 1000,
            }),
    {
        let mut options = BuildOptions::standard(line_bytes);
        options.mode = self.mode;
        match self.duration {
            Some(ns) => {
                options.duration_ns = ns;
            },
            None => {},
        }
        options.idle_threshold_ns = self.idle_threshold;
        options.idle_divisor = self.idle_divisor;
        options
    }
}

/// Read the command line of the latency bench.
pub fn parse_latency(args: &Vec<String>) -> (r: Result<LatencyArgs, String>)
    ensures
        match (
            r,
            latency_flags(
                LatencyView {
                    samples: 10_000,
                    interval_us: 1_000,
                    discard: 50,
                    load: Seq::empty(),
                    out: None,
                },
                texts(args@),
            ),
        ) {
            (Ok(a), Ok(set)) => a@ == set,
            (Err(text), Err(why)) => text@ == why,
            _ => false,
        },
{
    let mut a = LatencyArgs {
        samples: 10_000,
        interval_us: 1_000,
        discard: 50,
        load: Vec::new(),
        out: None,
    };
    assert(texts(a.load@) =~= Seq::<Seq<char>>::empty());
    match take_latency_flags(&mut a, args) {
        Ok(()) => Ok(a),
        Err(why) => Err(why),
    }
}

/// Read the command line of the throughput bench.
pub fn parse_throughput(args: &Vec<String>, line_bytes: usize) -> (r: Result<
    ThroughputArgs,
    String,
>)
    ensures
        match (
            r,
            throughput_flags(
                ThroughputView {
                    lines: 1_000_000,
                    sessions: 1,
                    line_bytes,
                    load: Seq::empty(),
                    out: None,
                },
                texts(args@),
            ),
        ) {
            (Ok(a), Ok(set)) => a@ == set,
            (Err(text), Err(why)) => text@ == why,
            _ => false,
        },
{
    let mut a = ThroughputArgs {
        lines: 1_000_000,
        sessions: 1,
        line_bytes,
        load: Vec::new(),
        out: None,
    };
    assert(texts(a.load@) =~= Seq::<Seq<char>>::empty());
    match take_throughput_flags(&mut a, args) {
        Ok(()) => Ok(a),
        Err(why) => Err(why),
    }
}

/// Read the command line of the regression gate: the baseline's path, then the
/// current report's.
pub fn parse_compare(args: &Vec<String>) -> (r: Result<(String, String), String>)
    ensures
        match (r, compare_flags(CompareView { baseline: None, current: None }, texts(args@))) {
            (Ok((baseline, current)), Ok(set)) => set.baseline == Some(baseline@) && set.current
                == Some(current@),
            (Err(text), Ok(set)) => if set.baseline is None {
                text@ == "compare needs --baseline"@
            } else {
                set.current is None && text@ == "compare needs --current"@
            },
            (Err(text), Err(why)) => text@ == why,
            _ => false,
        },
{
    let mut a = CompareArgs { baseline: None, current: None };
    match take_compare_flags(&mut a, args) {
        Ok(()) => {},
        Err(why) => {
            return Err(why);
        },
    }
    match (a.baseline, a.current) {
        (None, _) => Err("compare needs --baseline".to_owned()),
        (Some(_), None) => Err("compare needs --current".to_owned()),
        (Some(baseline), Some(current)) => Ok((baseline, current)),
    }
}

/// Read the command line of the replaying child: the plan's path, and that of a
/// recorded plan's bytes.
pub fn parse_child(args: &Vec<String>) -> (r: Result<(String, Option<String>), String>)
    ensures
        match (r, child_flags(ChildView { plan: None, bytes: None }, texts(args@))) {
            (Ok((plan, bytes)), Ok(set)) => set.plan == Some(plan@) && set.bytes == optional_text(
                bytes,
            ),
            (Err(text), Ok(set)) => set.plan is None && text@ == "--plan is required"@,
            (Err(text), Err(why)) => text@ == why,
            _ => false,
        },
{
    let mut a = ChildArgs { plan: None, bytes: None };
    match take_child_flags(&mut a, args) {
        Ok(()) => {},
        Err(why) => {
            return Err(why);
        },
    }
    match a.plan {
        Some(plan) => Ok((plan, a.bytes)),
        None => Err("--plan is required".to_owned()),
    }
}

/// A usage error as a failure.
fn usage(text: &str) -> (failure: Failure)
    ensures
        failure.says("args"@, 2, text@),
{
    Failure::new("args", EXIT_USAGE, text)
}

/// Read the command line of the stand-in lane.
pub fn parse_standin(args: &Vec<String>) -> (r: Result<StandinLaneConfig, Failure>)
    ensures
        match (
            r,
            standin_flags(
                StandinView { first_token_ms: 2_000, timeout: 10_000_000_000 },
                texts(args@),
            ),
        ) {
            (Ok(config), Ok(set)) => config.first_token_ms == set.first_token_ms
                && config.timeout_ns == set.timeout,
            (Err(failure), Err(why)) => failure.says("args"@, 2, why),
            _ => false,
        },
{
    let mut a = StandinArgs { first_token_ms: 2_000, timeout: 10_000_000_000 };
    match take_standin_flags(&mut a, args) {
        Ok(()) => Ok(
            StandinLaneConfig { first_token_ms: a.first_token_ms, timeout_ns: a.timeout },
        ),
        Err(why) => Err(usage(why.as_str())),
    }
}

/// Read the command line of a live lane. `live` names the CLI that it launches.
pub fn parse_probe(args: &Vec<String>, live: &str) -> (r: Result<ProbeConfig, Failure>)
    ensures
        match (
            r,
            probe_flags(
                ProbeView {
                    claude_bin: live@,
                    model: None,
                    first_token_ms: 2_000,
                    capture: None,
                    keep_workdir: false,
                },
                live@,
                texts(args@),
            ),
        ) {
            (Ok(config), Ok(set)) => {
                &&& config.claude_bin@ == set.claude_bin
                &&& optional_text(config.model) == set.model
                &&& config.first_token_ms == set.first_token_ms
                &&& optional_text(config.capture_to) == set.capture
                &&& config.keep_workdir == set.keep_workdir
                &&& config.cols == COLS
                &&& config.rows == ROWS
            },
            (Err(failure), Err(why)) => failure.says("args"@, 2, why),
            _ => false,
        },
{
    let mut a = ProbeArgs {
        claude_bin: live.to_owned(),
        model: None,
        first_token_ms: 2_000,
        capture: None,
        keep_workdir: false,
    };
    match take_probe_flags(&mut a, live, args) {
        Ok(()) => Ok(
            ProbeConfig {
                claude_bin: a.claude_bin,
                model: a.model,
                first_token_ms: a.first_token_ms,
                capture_to: a.capture,
                keep_workdir: a.keep_workdir,
                cols: COLS,
                rows: ROWS,
            },
        ),
        Err(why) => Err(usage(why.as_str())),
    }
}

/// The settings of a recording before its command line is read.
pub open spec fn record_defaults() -> RecordView {
    RecordView {
        script: Seq::empty(),
        out: Seq::empty(),
        cols: COLS,
        rows: ROWS,
        cli_bin: None,
        cli_version: None,
        model: None,
        install: None,
        first_token_ms: 2_000,
        keep_workdir: false,
    }
}

/// Read the command line of a recording, which needs a script and a fixture
/// directory.
pub fn parse_record(args: &Vec<String>) -> (r: Result<RecordConfig, Failure>)
    ensures
        match (r, record_flags(record_defaults(), texts(args@))) {
            (Ok(config), Ok(set)) => {
                &&& set.script.len() > 0
                &&& set.out.len() > 0
                &&& config.script@ == set.script
                &&& config.out@ == set.out
                &&& config.cols == set.cols
                &&& config.rows == set.rows
                &&& optional_text(config.cli_bin) == set.cli_bin
                &&& optional_text(config.cli_version) == set.cli_version
                &&& optional_text(config.model) == set.model
                &&& optional_text(config.install) == set.install
                &&& config.expect_cli is None
                &&& config.first_token_ms == set.first_token_ms
                &&& config.keep_workdir == set.keep_workdir
            },
            (Err(failure), Ok(set)) => if set.script.len() == 0 {
                failure.says("args"@, 2, "record needs --script <scenario.json>"@)
            } else {
                set.out.len() == 0 && failure.says(
                    "args"@,
                    2,
                    "record needs --out <fixture-dir>"@,
                )
            },
            (Err(failure), Err(why)) => failure.says("args"@, 2, why),
            _ => false,
        },
{
    let mut a = RecordArgs {
        script: String::new(),
        out: String::new(),
        cols: COLS,
        rows: ROWS,
        cli_bin: None,
        cli_version: None,
        model: None,
        install: None,
        first_token_ms: 2_000,
        keep_workdir: false,
    };
    assert(a@.script =~= Seq::<char>::empty());
    assert(a@.out =~= Seq::<char>::empty());
    match take_record_flags(&mut a, args) {
        Ok(()) => {},
        Err(why) => {
            return Err(usage(why.as_str()));
        },
    }
    if chars_of(a.script.as_str()).len() == 0 {
        return Err(usage("record needs --script <scenario.json>"));
    }
    if chars_of(a.out.as_str()).len() == 0 {
        return Err(usage("record needs --out <fixture-dir>"));
    }
    Ok(
        RecordConfig {
            script: a.script,
            out: a.out,
            cols: a.cols,
            rows: a.rows,
            cli_bin: a.cli_bin,
            cli_version: a.cli_version,
            model: a.model,
            install: a.install,
            expect_cli: None,
            first_token_ms: a.first_token_ms,
            keep_workdir: a.keep_workdir,
        },
    )
}

/// The endpoint that a forwarder's command line names: the value of the first
/// such flag, wherever it stands.
pub open spec fn endpoint_of(rest: Seq<Seq<char>>) -> Result<Seq<char>, Seq<char>>
    decreases rest.len(),
{
    if rest.len() == 0 {
        Err("hook-forward needs --endpoint <path-or-pipe-name>"@)
    } else if rest[0] == "--endpoint"@ {
        flag_value(rest)
    } else {
        endpoint_of(rest.drop_first())
    }
}

/// Read the command line of the forwarder.
pub fn parse_endpoint(args: &Vec<String>) -> (r: Result<String, String>)
    ensures
        text_result(r) == endpoint_of(texts(args@)),
{
    let ghost all = texts(args@);
    let mut at: usize = 0;
    assert(all.skip(0) =~= all);
    while at < args.len()
        invariant
            all == texts(args@),
            at <= args@.len(),
            endpoint_of(all) == endpoint_of(all.skip(at as int)),
        decreases args@.len() - at,
    {
        assert(all.skip(at as int)[0] == args@[at as int]@);
        assert(all.skip(at as int).drop_first() =~= all.skip(at + 1));
        if same_text(args[at].as_str(), "--endpoint") {
            return take_value(args, at);
        }
        at += 1;
    }
    Err("hook-forward needs --endpoint <path-or-pipe-name>".to_owned())
}

/// How a measurement run ends: the exit code and what is said.
#[derive(Debug)]
pub struct Exit {
    pub code: i32,
    pub detail: String,
}

/// What a missed resource budget says.
pub open spec fn resources_text(a: Assessment) -> Seq<char> {
    "resource budgets missed: descriptor delta "@ + signed_decimal(a.descriptor_delta as int)
        + ", resident growth "@ + signed_decimal(a.rss_growth_bytes as int) + " bytes"@
}

/// What an endurance lane exits with: red on corruption, red on a resource
/// budget, in that order of blame.
pub fn judge_endurance(intact: bool, summary: &str, monitor: &Option<Assessment>) -> (r: Result<
    (),
    Exit,
>)
    ensures
        match r {
            Ok(()) => intact && (*monitor matches Some(a) ==> !a.descriptors_leaked
                && !a.rss_over_budget),
            Err(exit) => if !intact {
                exit.code == EXIT_INTEGRITY && exit.detail@
                    == "the stream did not survive intact: "@ + summary@
            } else {
                *monitor matches Some(a) && (a.descriptors_leaked || a.rss_over_budget)
                    && exit.code == EXIT_RESOURCES && exit.detail@ == resources_text(a)
            },
        },
{
    if !intact {
        let mut detail = "the stream did not survive intact: ".to_owned();
        detail.append(summary);
        return Err(Exit { code: EXIT_INTEGRITY, detail });
    }
    match monitor {
        Some(a) => {
            if !a.within_budget() {
                let mut detail = "resource budgets missed: descriptor delta ".to_owned();
                push_i64(&mut detail, a.descriptor_delta);
                detail.append(", resident growth ");
                push_i64(&mut detail, a.rss_growth_bytes);
                detail.append(" bytes");
                return Err(Exit { code: EXIT_RESOURCES, detail });
            }
        },
        None => {},
    }
    Ok(())
}

/// How the regression gate ends.
pub fn judge_comparison(passed: &Result<bool, String>) -> (r: Result<(), Exit>)
    ensures
        match *passed {
            Ok(true) => r is Ok,
            Ok(false) => r matches Err(exit) && exit.code == EXIT_REGRESSION && exit.detail@
                == "regression past the threshold \u{2014} see the compare steps above"@,
            Err(why) => r matches Err(exit) && exit.code == EXIT_RUN_FAILED && exit.detail@ == why@,
        },
{
    match passed {
        Ok(true) => Ok(()),
        Ok(false) => Err(
            Exit {
                code: EXIT_REGRESSION,
                detail: "regression past the threshold \u{2014} see the compare steps above".to_owned(),
            },
        ),
        Err(why) => Err(Exit { code: EXIT_RUN_FAILED, detail: why.clone() }),
    }
}

/// Minutes and seconds compose, in either order.
pub proof fn law_durations_compose(first: nat, second: nat)
    ensures
        added(Some(added(None, first as int)), second as int) == added(
            Some(added(None, second as int)),
            first as int,
        ),
        first + second <= u128::MAX ==> added(Some(added(None, first as int)), second as int)
            == first + second,
{
}

/// Whether a flag stands at a place of a command line whose flags all have a
/// value but the one that keeps the work directory.
pub open spec fn flag_stands_at(rest: Seq<Seq<char>>, i: int) -> bool
    decreases rest.len(),
{
    if rest.len() == 0 || i <= 0 {
        rest.len() > 0 && i == 0
    } else if rest[0] == "--keep-workdir"@ {
        flag_stands_at(rest.skip(1), i - 1)
    } else {
        rest.len() >= 2 && flag_stands_at(rest.skip(2), i - 2)
    }
}

/// The flags of the soak lane.
pub open spec fn soak_knows(flag: Seq<char>) -> bool {
    ||| flag == "--minutes"@
    ||| flag == "--seconds"@
    ||| flag == "--rate"@
    ||| flag == "--line-bytes"@
    ||| flag == "--checksum-every"@
    ||| flag == "--monitor-out"@
    ||| flag == "--monitor-interval-secs"@
    ||| flag == "--warmup-secs"@
    ||| flag == "--out"@
}

/// A command line that the soak lane accepts holds no other flag: a misspelled one is
/// an error.
pub proof fn law_soak_refuses_unknown_flags(a: SoakView, rest: Seq<Seq<char>>, i: int)
    requires
        soak_flags(a, rest) is Ok,
        0 <= i < rest.len(),
        i % 2 == 0,
    ensures
        soak_knows(rest[i]),
        i + 1 < rest.len(),
    decreases rest.len(),
{
    let (b, n) = soak_flag(a, rest)->Ok_0;
    if i > 0 {
        law_soak_refuses_unknown_flags(b, rest.skip(n), i - n);
        assert(rest.skip(n)[i - n] == rest[i]);
    }
}

/// The flags of the replay lane.
pub open spec fn replay_knows(flag: Seq<char>) -> bool {
    ||| flag == "--fixture"@
    ||| flag == "--minutes"@
    ||| flag == "--seconds"@
    ||| flag == "--content"@
    ||| flag == "--idle-threshold-ms"@
    ||| flag == "--idle-divisor"@
    ||| flag == "--monitor-out"@
    ||| flag == "--monitor-interval-secs"@
    ||| flag == "--warmup-secs"@
    ||| flag == "--out"@
}

/// A command line that the replay lane accepts holds no other flag: a misspelled one is
/// an error.
pub proof fn law_replay_refuses_unknown_flags(a: ReplayView, rest: Seq<Seq<char>>, i: int)
    requires
        replay_flags(a, rest) is Ok,
        0 <= i < rest.len(),
        i % 2 == 0,
    ensures
        replay_knows(rest[i]),
        i + 1 < rest.len(),
    decreases rest.len(),
{
    let (b, n) = replay_flag(a, rest)->Ok_0;
    if i > 0 {
        law_replay_refuses_unknown_flags(b, rest.skip(n), i - n);
        assert(rest.skip(n)[i - n] == rest[i]);
    }
}

/// The flags of the latency lane.
pub open spec fn latency_knows(flag: Seq<char>) -> bool {
    ||| flag == "--samples"@
    ||| flag == "--interval-us"@
    ||| flag == "--discard"@
    ||| flag == "--load"@
    ||| flag == "--out"@
}

/// A command line that the latency lane accepts holds no other flag: a misspelled one is
/// an error.
pub proof fn law_latency_refuses_unknown_flags(a: LatencyView, rest: Seq<Seq<char>>, i: int)
    requires
        latency_flags(a, rest) is Ok,
        0 <= i < rest.len(),
        i % 2 == 0,
    ensures
        latency_knows(rest[i]),
        i + 1 < rest.len(),
    decreases rest.len(),
{
    let (b, n) = latency_flag(a, rest)->Ok_0;
    if i > 0 {
        law_latency_refuses_unknown_flags(b, rest.skip(n), i - n);
        assert(rest.skip(n)[i - n] == rest[i]);
    }
}

/// The flags of the throughput lane.
pub open spec fn throughput_knows(flag: Seq<char>) -> bool {
    ||| flag == "--lines"@
    ||| flag == "--sessions"@
    ||| flag == "--line-bytes"@
    ||| flag == "--load"@
    ||| flag == "--out"@
}

/// A command line that the throughput lane accepts holds no other flag: a misspelled one is
/// an error.
pub proof fn law_throughput_refuses_unknown_flags(a: ThroughputView, rest: Seq<Seq<char>>, i: int)
    requires
        throughput_flags(a, rest) is Ok,
        0 <= i < rest.len(),
        i % 2 == 0,
    ensures
        throughput_knows(rest[i]),
        i + 1 < rest.len(),
    decreases rest.len(),
{
    let (b, n) = throughput_flag(a, rest)->Ok_0;
    if i > 0 {
        law_throughput_refuses_unknown_flags(b, rest.skip(n), i - n);
        assert(rest.skip(n)[i - n] == rest[i]);
    }
}

/// The flags of the comparison.
pub open spec fn compare_knows(flag: Seq<char>) -> bool {
    ||| flag == "--baseline"@
    ||| flag == "--current"@
}

/// A command line that the comparison accepts holds no other flag: a misspelled one is
/// an error.
pub proof fn law_compare_refuses_unknown_flags(a: CompareView, rest: Seq<Seq<char>>, i: int)
    requires
        compare_flags(a, rest) is Ok,
        0 <= i < rest.len(),
        i % 2 == 0,
    ensures
        compare_knows(rest[i]),
        i + 1 < rest.len(),
    decreases rest.len(),
{
    let (b, n) = compare_flag(a, rest)->Ok_0;
    if i > 0 {
        law_compare_refuses_unknown_flags(b, rest.skip(n), i - n);
        assert(rest.skip(n)[i - n] == rest[i]);
    }
}

/// The flags of the replay child.
pub open spec fn child_knows(flag: Seq<char>) -> bool {
    ||| flag == "--plan"@
    ||| flag == "--bytes"@
}

/// A command line that the replay child accepts holds no other flag: a misspelled one is
/// an error.
pub proof fn law_child_refuses_unknown_flags(a: ChildView, rest: Seq<Seq<char>>, i: int)
    requires
        child_flags(a, rest) is Ok,
        0 <= i < rest.len(),
        i % 2 == 0,
    ensures
        child_knows(rest[i]),
        i + 1 < rest.len(),
    decreases rest.len(),
{
    let (b, n) = child_flag(a, rest)->Ok_0;
    if i > 0 {
        law_child_refuses_unknown_flags(b, rest.skip(n), i - n);
        assert(rest.skip(n)[i - n] == rest[i]);
    }
}

/// The flags of the stand-in lane.
pub open spec fn standin_knows(flag: Seq<char>) -> bool {
    ||| flag == "--first-token-ms"@
    ||| flag == "--timeout-secs"@
}

/// A command line that the stand-in lane accepts holds no other flag: a misspelled one is
/// an error.
pub proof fn law_standin_refuses_unknown_flags(a: StandinView, rest: Seq<Seq<char>>, i: int)
    requires
        standin_flags(a, rest) is Ok,
        0 <= i < rest.len(),
        i % 2 == 0,
    ensures
        standin_knows(rest[i]),
        i + 1 < rest.len(),
    decreases rest.len(),
{
    let (b, n) = standin_flag(a, rest)->Ok_0;
    if i > 0 {
        law_standin_refuses_unknown_flags(b, rest.skip(n), i - n);
        assert(rest.skip(n)[i - n] == rest[i]);
    }
}

/// The flags of the live lanes.
pub open spec fn probe_knows(live: Seq<char>, flag: Seq<char>) -> bool {
    ||| flag == "--"@ + live + "-bin"@
    ||| flag == "--model"@
    ||| flag == "--first-token-ms"@
    ||| flag == "--capture"@
    ||| flag == "--keep-workdir"@
}

/// A command line that the live lanes accepts holds no other flag: a misspelled one is
/// an error.
pub proof fn law_probe_refuses_unknown_flags(
    a: ProbeView,
    live: Seq<char>,
    rest: Seq<Seq<char>>,
    i: int,
)
    requires
        probe_flags(a, live, rest) is Ok,
        flag_stands_at(rest, i),
    ensures
        0 <= i < rest.len(),
        probe_knows(live, rest[i]),
    decreases rest.len(),
{
    let (b, n) = probe_flag(a, live, rest)->Ok_0;
    if i > 0 {
        reveal_strlit("--keep-workdir");
        reveal_strlit("--model");
        reveal_strlit("--first-token-ms");
        reveal_strlit("--capture");
        reveal_strlit("-bin");
        assert(("--"@ + live + "-bin"@).last() == 'n');
        assert("--keep-workdir"@.last() == 'r');
        law_probe_refuses_unknown_flags(b, live, rest.skip(n), i - n);
        assert(rest.skip(n)[i - n] == rest[i]);
    }
}

/// The flags of the recording lane.
pub open spec fn record_knows(flag: Seq<char>) -> bool {
    ||| flag == "--script"@
    ||| flag == "--out"@
    ||| flag == "--cols"@
    ||| flag == "--rows"@
    ||| flag == "--cli-bin"@
    ||| flag == "--cli-version"@
    ||| flag == "--model"@
    ||| flag == "--install"@
    ||| flag == "--first-token-ms"@
    ||| flag == "--keep-workdir"@
}

/// A command line that the recording lane accepts holds no other flag: a misspelled one is
/// an error.
pub proof fn law_record_refuses_unknown_flags(
    a: RecordView,
    rest: Seq<Seq<char>>,
    i: int,
)
    requires
        record_flags(a, rest) is Ok,
        flag_stands_at(rest, i),
    ensures
        0 <= i < rest.len(),
        record_knows(rest[i]),
    decreases rest.len(),
{
    let (b, n) = record_flag(a, rest)->Ok_0;
    if i > 0 {
        reveal_strlit("--keep-workdir");
        reveal_strlit("--script");
        reveal_strlit("--out");
        reveal_strlit("--cols");
        reveal_strlit("--rows");
        reveal_strlit("--cli-bin");
        reveal_strlit("--cli-version");
        reveal_strlit("--model");
        reveal_strlit("--install");
        reveal_strlit("--first-token-ms");
        law_record_refuses_unknown_flags(b, rest.skip(n), i - n);
        assert(rest.skip(n)[i - n] == rest[i]);
    }
}

/// Each flag of the soak lane sets what it names to the value behind it and
/// nothing else, and what follows is read on top of that.
pub proof fn law_each_soak_flag_sets_what_it_names(
    a: SoakView,
    value: Seq<char>,
    number: u64,
    count: usize,
    rest: Seq<Seq<char>>,
)
    ensures
        a.duration is None ==> soak_flags(a, seq!["--minutes"@, decimal(number as nat)] + rest) == soak_flags(SoakView { duration: Some((number * 60_000_000_000) as u128), ..a }, rest),
        a.duration matches Some(ns) ==> (ns + number * 60_000_000_000 <= u128::MAX ==> soak_flags(a, seq!["--minutes"@, decimal(number as nat)] + rest) == soak_flags(SoakView { duration: Some((ns + number * 60_000_000_000) as u128), ..a }, rest)),
        a.duration is None ==> soak_flags(a, seq!["--seconds"@, decimal(number as nat)] + rest) == soak_flags(SoakView { duration: Some((number * 1_000_000_000) as u128), ..a }, rest),
        a.duration matches Some(ns) ==> (ns + number * 1_000_000_000 <= u128::MAX ==> soak_flags(a, seq!["--seconds"@, decimal(number as nat)] + rest) == soak_flags(SoakView { duration: Some((ns + number * 1_000_000_000) as u128), ..a }, rest)),
        soak_flags(a, seq!["--rate"@, decimal(number as nat)] + rest) == soak_flags(SoakView { rate: number, ..a }, rest),
        soak_flags(a, seq!["--line-bytes"@, decimal(count as nat)] + rest) == soak_flags(SoakView { line_bytes: count, ..a }, rest),
        soak_flags(a, seq!["--checksum-every"@, decimal(number as nat)] + rest) == soak_flags(SoakView { checksum_every: number, ..a }, rest),
        soak_flags(a, seq!["--monitor-out"@, value] + rest) == soak_flags(SoakView { monitor_out: Some(value), ..a }, rest),
        soak_flags(a, seq!["--monitor-interval-secs"@, decimal(number as nat)] + rest) == soak_flags(SoakView { monitor_interval: (number * 1_000_000_000) as u128, ..a }, rest),
        soak_flags(a, seq!["--warmup-secs"@, decimal(number as nat)] + rest) == soak_flags(SoakView { warmup: (number * 1_000_000_000) as u128, ..a }, rest),
        soak_flags(a, seq!["--out"@, value] + rest) == soak_flags(SoakView { out: Some(value), ..a }, rest),
        soak_flags(a, Seq::empty()) == Ok::<SoakView, Seq<char>>(a),
{
    reveal_strlit("--minutes");
    reveal_strlit("--seconds");
    reveal_strlit("--rate");
    reveal_strlit("--line-bytes");
    reveal_strlit("--checksum-every");
    reveal_strlit("--monitor-out");
    reveal_strlit("--monitor-interval-secs");
    reveal_strlit("--warmup-secs");
    reveal_strlit("--out");
    assert("--minutes"@.len() == 9 && "--seconds"@.len() == 9 && "--rate"@.len() == 6 && "--line-bytes"@.len() == 12 && "--checksum-every"@.len() == 16 && "--monitor-out"@.len() == 13 && "--monitor-interval-secs"@.len() == 23 && "--warmup-secs"@.len() == 13 && "--out"@.len() == 5);
    assert("--minutes"@[2] == 'm');
    assert("--seconds"@[2] == 's');
    assert("--monitor-out"@[2] == 'm');
    assert("--warmup-secs"@[2] == 'w');
    law_decimal_reads_back(number as nat, u64::MAX as nat);
    law_decimal_reads_back(count as nat, usize::MAX as nat);
    assert((seq!["--minutes"@, decimal(number as nat)] + rest).skip(2) =~= rest);
    assert((seq!["--seconds"@, decimal(number as nat)] + rest).skip(2) =~= rest);
    assert((seq!["--rate"@, decimal(number as nat)] + rest).skip(2) =~= rest);
    assert((seq!["--line-bytes"@, decimal(count as nat)] + rest).skip(2) =~= rest);
    assert((seq!["--checksum-every"@, decimal(number as nat)] + rest).skip(2) =~= rest);
    assert((seq!["--monitor-out"@, value] + rest).skip(2) =~= rest);
    assert((seq!["--monitor-interval-secs"@, decimal(number as nat)] + rest).skip(2) =~= rest);
    assert((seq!["--warmup-secs"@, decimal(number as nat)] + rest).skip(2) =~= rest);
    assert((seq!["--out"@, value] + rest).skip(2) =~= rest);
}

/// Each flag of the replay lane sets what it names to the value behind it and
/// nothing else, and what follows is read on top of that.
pub proof fn law_each_replay_flag_sets_what_it_names(
    a: ReplayView,
    value: Seq<char>,
    number: u64,
    rest: Seq<Seq<char>>,
)
    ensures
        replay_flags(a, seq!["--fixture"@, value] + rest) == replay_flags(ReplayView { fixtures: a.fixtures.push(value), ..a }, rest),
        a.duration is None ==> replay_flags(a, seq!["--minutes"@, decimal(number as nat)] + rest) == replay_flags(ReplayView { duration: Some((number * 60_000_000_000) as u128), ..a }, rest),
        a.duration matches Some(ns) ==> (ns + number * 60_000_000_000 <= u128::MAX ==> replay_flags(a, seq!["--minutes"@, decimal(number as nat)] + rest) == replay_flags(ReplayView { duration: Some((ns + number * 60_000_000_000) as u128), ..a }, rest)),
        a.duration is None ==> replay_flags(a, seq!["--seconds"@, decimal(number as nat)] + rest) == replay_flags(ReplayView { duration: Some((number * 1_000_000_000) as u128), ..a }, rest),
        a.duration matches Some(ns) ==> (ns + number * 1_000_000_000 <= u128::MAX ==> replay_flags(a, seq!["--seconds"@, decimal(number as nat)] + rest) == replay_flags(ReplayView { duration: Some((ns + number * 1_000_000_000) as u128), ..a }, rest)),
        replay_flags(a, seq!["--content"@, "generated"@] + rest) == replay_flags(ReplayView { mode: Mode::Generated, ..a }, rest),
        replay_flags(a, seq!["--content"@, "recorded"@] + rest) == replay_flags(ReplayView { mode: Mode::Recorded, ..a }, rest),
        replay_flags(a, seq!["--idle-threshold-ms"@, decimal(number as nat)] + rest) == replay_flags(ReplayView { idle_threshold: (number * 1_000_000) as u128, ..a }, rest),
        replay_flags(a, seq!["--idle-divisor"@, decimal(number as nat)] + rest) == replay_flags(ReplayView { idle_divisor: number, ..a }, rest),
        replay_flags(a, seq!["--monitor-out"@, value] + rest) == replay_flags(ReplayView { monitor_out: Some(value), ..a }, rest),
        replay_flags(a, seq!["--monitor-interval-secs"@, decimal(number as nat)] + rest) == replay_flags(ReplayView { monitor_interval: (number * 1_000_000_000) as u128, ..a }, rest),
        replay_flags(a, seq!["--warmup-secs"@, decimal(number as nat)] + rest) == replay_flags(ReplayView { warmup: (number * 1_000_000_000) as u128, ..a }, rest),
        replay_flags(a, seq!["--out"@, value] + rest) == replay_flags(ReplayView { out: Some(value), ..a }, rest),
        replay_flags(a, Seq::empty()) == Ok::<ReplayView, Seq<char>>(a),
{
    reveal_strlit("--fixture");
    reveal_strlit("--minutes");
    reveal_strlit("--seconds");
    reveal_strlit("--content");
    reveal_strlit("--idle-threshold-ms");
    reveal_strlit("--idle-divisor");
    reveal_strlit("--monitor-out");
    reveal_strlit("--monitor-interval-secs");
    reveal_strlit("--warmup-secs");
    reveal_strlit("--out");
    reveal_strlit("generated");
    reveal_strlit("recorded");
    assert("generated"@.len() == 9 && "recorded"@.len() == 8);
    assert("--fixture"@.len() == 9 && "--minutes"@.len() == 9 && "--seconds"@.len() == 9 && "--content"@.len() == 9 && "--idle-threshold-ms"@.len() == 19 && "--idle-divisor"@.len() == 14 && "--monitor-out"@.len() == 13 && "--monitor-interval-secs"@.len() == 23 && "--warmup-secs"@.len() == 13 && "--out"@.len() == 5);
    assert("--fixture"@[2] == 'f');
    assert("--minutes"@[2] == 'm');
    assert("--seconds"@[2] == 's');
    assert("--content"@[2] == 'c');
    assert("--monitor-out"@[2] == 'm');
    assert("--warmup-secs"@[2] == 'w');
    law_decimal_reads_back(number as nat, u64::MAX as nat);
    assert((seq!["--fixture"@, value] + rest).skip(2) =~= rest);
    assert((seq!["--minutes"@, decimal(number as nat)] + rest).skip(2) =~= rest);
    assert((seq!["--seconds"@, decimal(number as nat)] + rest).skip(2) =~= rest);
    assert((seq!["--content"@, "generated"@] + rest).skip(2) =~= rest);
    assert((seq!["--content"@, "recorded"@] + rest).skip(2) =~= rest);
    assert((seq!["--idle-threshold-ms"@, decimal(number as nat)] + rest).skip(2) =~= rest);
    assert((seq!["--idle-divisor"@, decimal(number as nat)] + rest).skip(2) =~= rest);
    assert((seq!["--monitor-out"@, value] + rest).skip(2) =~= rest);
    assert((seq!["--monitor-interval-secs"@, decimal(number as nat)] + rest).skip(2) =~= rest);
    assert((seq!["--warmup-secs"@, decimal(number as nat)] + rest).skip(2) =~= rest);
    assert((seq!["--out"@, value] + rest).skip(2) =~= rest);
}

/// Each flag of the latency bench sets what it names to the value behind it and
/// nothing else, and what follows is read on top of that.
pub proof fn law_each_latency_flag_sets_what_it_names(
    a: LatencyView,
    value: Seq<char>,
    number: u64,
    count: usize,
    rest: Seq<Seq<char>>,
)
    ensures
        latency_flags(a, seq!["--samples"@, decimal(count as nat)] + rest) == latency_flags(LatencyView { samples: count, ..a }, rest),
        latency_flags(a, seq!["--interval-us"@, decimal(number as nat)] + rest) == latency_flags(LatencyView { interval_us: number, ..a }, rest),
        latency_flags(a, seq!["--discard"@, decimal(count as nat)] + rest) == latency_flags(LatencyView { discard: count, ..a }, rest),
        latency_flags(a, seq!["--load"@, value] + rest) == latency_flags(LatencyView { load: a.load.push(value), ..a }, rest),
        latency_flags(a, seq!["--out"@, value] + rest) == latency_flags(LatencyView { out: Some(value), ..a }, rest),
        latency_flags(a, Seq::empty()) == Ok::<LatencyView, Seq<char>>(a),
{
    reveal_strlit("--samples");
    reveal_strlit("--interval-us");
    reveal_strlit("--discard");
    reveal_strlit("--load");
    reveal_strlit("--out");
    assert("--samples"@.len() == 9 && "--interval-us"@.len() == 13 && "--discard"@.len() == 9 && "--load"@.len() == 6 && "--out"@.len() == 5);
    assert("--samples"@[2] == 's');
    assert("--discard"@[2] == 'd');
    law_decimal_reads_back(number as nat, u64::MAX as nat);
    law_decimal_reads_back(count as nat, usize::MAX as nat);
    assert((seq!["--samples"@, decimal(count as nat)] + rest).skip(2) =~= rest);
    assert((seq!["--interval-us"@, decimal(number as nat)] + rest).skip(2) =~= rest);
    assert((seq!["--discard"@, decimal(count as nat)] + rest).skip(2) =~= rest);
    assert((seq!["--load"@, value] + rest).skip(2) =~= rest);
    assert((seq!["--out"@, value] + rest).skip(2) =~= rest);
}

/// Each flag of the throughput bench sets what it names to the value behind it and
/// nothing else, and what follows is read on top of that.
pub proof fn law_each_throughput_flag_sets_what_it_names(
    a: ThroughputView,
    value: Seq<char>,
    number: u64,
    count: usize,
    rest: Seq<Seq<char>>,
)
    ensures
        throughput_flags(a, seq!["--lines"@, decimal(number as nat)] + rest) == throughput_flags(ThroughputView { lines: number, ..a }, rest),
        throughput_flags(a, seq!["--sessions"@, decimal(count as nat)] + rest) == throughput_flags(ThroughputView { sessions: count, ..a }, rest),
        throughput_flags(a, seq!["--line-bytes"@, decimal(count as nat)] + rest) == throughput_flags(ThroughputView { line_bytes: count, ..a }, rest),
        throughput_flags(a, seq!["--load"@, value] + rest) == throughput_flags(ThroughputView { load: a.load.push(value), ..a }, rest),
        throughput_flags(a, seq!["--out"@, value] + rest) == throughput_flags(ThroughputView { out: Some(value), ..a }, rest),
        throughput_flags(a, Seq::empty()) == Ok::<ThroughputView, Seq<char>>(a),
{
    reveal_strlit("--lines");
    reveal_strlit("--sessions");
    reveal_strlit("--line-bytes");
    reveal_strlit("--load");
    reveal_strlit("--out");
    assert("--lines"@.len() == 7 && "--sessions"@.len() == 10 && "--line-bytes"@.len() == 12 && "--load"@.len() == 6 && "--out"@.len() == 5);
    law_decimal_reads_back(number as nat, u64::MAX as nat);
    law_decimal_reads_back(count as nat, usize::MAX as nat);
    assert((seq!["--lines"@, decimal(number as nat)] + rest).skip(2) =~= rest);
    assert((seq!["--sessions"@, decimal(count as nat)] + rest).skip(2) =~= rest);
    assert((seq!["--line-bytes"@, decimal(count as nat)] + rest).skip(2) =~= rest);
    assert((seq!["--load"@, value] + rest).skip(2) =~= rest);
    assert((seq!["--out"@, value] + rest).skip(2) =~= rest);
}

/// Each flag of the comparison sets what it names to the value behind it and
/// nothing else, and what follows is read on top of that.
pub proof fn law_each_compare_flag_sets_what_it_names(
    a: CompareView,
    value: Seq<char>,
    rest: Seq<Seq<char>>,
)
    ensures
        compare_flags(a, seq!["--baseline"@, value] + rest) == compare_flags(CompareView { baseline: Some(value), ..a }, rest),
        compare_flags(a, seq!["--current"@, value] + rest) == compare_flags(CompareView { current: Some(value), ..a }, rest),
        compare_flags(a, Seq::empty()) == Ok::<CompareView, Seq<char>>(a),
{
    reveal_strlit("--baseline");
    reveal_strlit("--current");
    assert("--baseline"@.len() == 10 && "--current"@.len() == 9);
    assert((seq!["--baseline"@, value] + rest).skip(2) =~= rest);
    assert((seq!["--current"@, value] + rest).skip(2) =~= rest);
}

/// Each flag of the replaying child sets what it names to the value behind it and
/// nothing else, and what follows is read on top of that.
pub proof fn law_each_child_flag_sets_what_it_names(
    a: ChildView,
    value: Seq<char>,
    rest: Seq<Seq<char>>,
)
    ensures
        child_flags(a, seq!["--plan"@, value] + rest) == child_flags(ChildView { plan: Some(value), ..a }, rest),
        child_flags(a, seq!["--bytes"@, value] + rest) == child_flags(ChildView { bytes: Some(value), ..a }, rest),
        child_flags(a, Seq::empty()) == Ok::<ChildView, Seq<char>>(a),
{
    reveal_strlit("--plan");
    reveal_strlit("--bytes");
    assert("--plan"@.len() == 6 && "--bytes"@.len() == 7);
    assert((seq!["--plan"@, value] + rest).skip(2) =~= rest);
    assert((seq!["--bytes"@, value] + rest).skip(2) =~= rest);
}

/// Each flag of the stand-in lane sets what it names to the value behind it and
/// nothing else, and what follows is read on top of that.
pub proof fn law_each_standin_flag_sets_what_it_names(
    a: StandinView,
    number: u64,
    rest: Seq<Seq<char>>,
)
    ensures
        standin_flags(a, seq!["--first-token-ms"@, decimal(number as nat)] + rest) == standin_flags(StandinView { first_token_ms: number, ..a }, rest),
        standin_flags(a, seq!["--timeout-secs"@, decimal(number as nat)] + rest) == standin_flags(StandinView { timeout: (number * 1_000_000_000) as u128, ..a }, rest),
        standin_flags(a, Seq::empty()) == Ok::<StandinView, Seq<char>>(a),
{
    reveal_strlit("--first-token-ms");
    reveal_strlit("--timeout-secs");
    assert("--first-token-ms"@.len() == 16 && "--timeout-secs"@.len() == 14);
    law_decimal_reads_back(number as nat, u64::MAX as nat);
    assert((seq!["--first-token-ms"@, decimal(number as nat)] + rest).skip(2) =~= rest);
    assert((seq!["--timeout-secs"@, decimal(number as nat)] + rest).skip(2) =~= rest);
}

/// Each flag of the live lanes sets what it names to the value behind it and
/// nothing else, and what follows is read on top of that.
pub proof fn law_each_probe_flag_sets_what_it_names(
    a: ProbeView,
    live: Seq<char>,
    value: Seq<char>,
    number: u64,
    rest: Seq<Seq<char>>,
)
    requires
        "--"@ + live + "-bin"@ != "--model"@,
        "--"@ + live + "-bin"@ != "--first-token-ms"@,
        "--"@ + live + "-bin"@ != "--capture"@,
        "--"@ + live + "-bin"@ != "--keep-workdir"@,
    ensures
        probe_flags(a, live, seq!["--"@ + live + "-bin"@, value] + rest) == probe_flags(ProbeView { claude_bin: value, ..a }, live, rest),
        probe_flags(a, live, seq!["--model"@, value] + rest) == probe_flags(ProbeView { model: Some(value), ..a }, live, rest),
        probe_flags(a, live, seq!["--first-token-ms"@, decimal(number as nat)] + rest) == probe_flags(ProbeView { first_token_ms: number, ..a }, live, rest),
        probe_flags(a, live, seq!["--capture"@, value] + rest) == probe_flags(ProbeView { capture: Some(value), ..a }, live, rest),
        probe_flags(a, live, seq!["--keep-workdir"@] + rest) == probe_flags(ProbeView { keep_workdir: true, ..a }, live, rest),
        probe_flags(a, live, Seq::empty()) == Ok::<ProbeView, Seq<char>>(a),
{
    reveal_strlit("--model");
    reveal_strlit("--first-token-ms");
    reveal_strlit("--capture");
    reveal_strlit("--keep-workdir");
    assert("--model"@.len() == 7 && "--first-token-ms"@.len() == 16 && "--capture"@.len() == 9 && "--keep-workdir"@.len() == 14);
    law_decimal_reads_back(number as nat, u64::MAX as nat);
    assert((seq!["--"@ + live + "-bin"@, value] + rest).skip(2) =~= rest);
    assert((seq!["--model"@, value] + rest).skip(2) =~= rest);
    assert((seq!["--first-token-ms"@, decimal(number as nat)] + rest).skip(2) =~= rest);
    assert((seq!["--capture"@, value] + rest).skip(2) =~= rest);
    assert((seq!["--keep-workdir"@] + rest).skip(1) =~= rest);
}

/// Each flag of a recording sets what it names to the value behind it and
/// nothing else, and what follows is read on top of that.
pub proof fn law_each_record_flag_sets_what_it_names(
    a: RecordView,
    value: Seq<char>,
    number: u64,
    size: u16,
    rest: Seq<Seq<char>>,
)
    ensures
        record_flags(a, seq!["--script"@, value] + rest) == record_flags(RecordView { script: value, ..a }, rest),
        record_flags(a, seq!["--out"@, value] + rest) == record_flags(RecordView { out: value, ..a }, rest),
        size > 0 ==> record_flags(a, seq!["--cols"@, decimal(size as nat)] + rest) == record_flags(RecordView { cols: size, ..a }, rest),
        size > 0 ==> record_flags(a, seq!["--rows"@, decimal(size as nat)] + rest) == record_flags(RecordView { rows: size, ..a }, rest),
        record_flags(a, seq!["--cli-bin"@, value] + rest) == record_flags(RecordView { cli_bin: Some(value), ..a }, rest),
        record_flags(a, seq!["--cli-version"@, value] + rest) == record_flags(RecordView { cli_version: Some(value), ..a }, rest),
        record_flags(a, seq!["--model"@, value] + rest) == record_flags(RecordView { model: Some(value), ..a }, rest),
        record_flags(a, seq!["--install"@, value] + rest) == record_flags(RecordView { install: Some(value), ..a }, rest),
        record_flags(a, seq!["--first-token-ms"@, decimal(number as nat)] + rest) == record_flags(RecordView { first_token_ms: number, ..a }, rest),
        record_flags(a, seq!["--keep-workdir"@] + rest) == record_flags(RecordView { keep_workdir: true, ..a }, rest),
        record_flags(a, Seq::empty()) == Ok::<RecordView, Seq<char>>(a),
{
    reveal_strlit("--script");
    reveal_strlit("--out");
    reveal_strlit("--cols");
    reveal_strlit("--rows");
    reveal_strlit("--cli-bin");
    reveal_strlit("--cli-version");
    reveal_strlit("--model");
    reveal_strlit("--install");
    reveal_strlit("--first-token-ms");
    reveal_strlit("--keep-workdir");
    assert("--script"@.len() == 8 && "--out"@.len() == 5 && "--cols"@.len() == 6 && "--rows"@.len() == 6 && "--cli-bin"@.len() == 9 && "--cli-version"@.len() == 13 && "--model"@.len() == 7 && "--install"@.len() == 9 && "--first-token-ms"@.len() == 16 && "--keep-workdir"@.len() == 14);
    assert("--cols"@[2] == 'c');
    assert("--rows"@[2] == 'r');
    assert("--cli-bin"@[2] == 'c');
    assert("--install"@[2] == 'i');
    law_decimal_reads_back(number as nat, u64::MAX as nat);
    law_decimal_reads_back(size as nat, u16::MAX as nat);
    assert((seq!["--script"@, value] + rest).skip(2) =~= rest);
    assert((seq!["--out"@, value] + rest).skip(2) =~= rest);
    assert((seq!["--cols"@, decimal(size as nat)] + rest).skip(2) =~= rest);
    assert((seq!["--rows"@, decimal(size as nat)] + rest).skip(2) =~= rest);
    assert((seq!["--cli-bin"@, value] + rest).skip(2) =~= rest);
    assert((seq!["--cli-version"@, value] + rest).skip(2) =~= rest);
    assert((seq!["--model"@, value] + rest).skip(2) =~= rest);
    assert((seq!["--install"@, value] + rest).skip(2) =~= rest);
    assert((seq!["--first-token-ms"@, decimal(number as nat)] + rest).skip(2) =~= rest);
    assert((seq!["--keep-workdir"@] + rest).skip(1) =~= rest);
}

/// A flag has the word behind it for a value, and a number where that is one of at
/// most the largest allowed; a dimension is one of sixteen bits above zero.
pub proof fn law_a_flag_takes_the_word_behind_it(
    flag: Seq<char>,
    value: Seq<char>,
    n: u64,
    max: nat,
    rest: Seq<Seq<char>>,
)
    ensures
        flag_value(seq![flag, value] + rest) == Ok::<Seq<char>, Seq<char>>(value),
        flag_value(seq![flag]) == Err::<Seq<char>, Seq<char>>(flag + " needs a value"@),
        n <= max ==> flag_number(seq![flag, decimal(n as nat)] + rest, max) == Ok::<
            u64,
            Seq<char>,
        >(n),
        0 < n <= 65535 ==> flag_dimension(seq![flag, decimal(n as nat)] + rest) == Ok::<
            u64,
            Seq<char>,
        >(n),
        flag_dimension(seq![flag, decimal(0)] + rest) is Err,
        number_value(value, max) is Err ==> flag_number(seq![flag, value] + rest, max) == Err::<
            u64,
            Seq<char>,
        >("invalid "@ + flag + " value: "@ + value),
{
    if n <= max {
        law_decimal_reads_back(n as nat, max);
    }
    if n <= 65535 {
        law_decimal_reads_back(n as nat, 65535);
    }
    law_decimal_reads_back(0, 65535);
}

/// The endpoint is the word behind the first flag for it, whatever stands around,
/// and there is none without the flag.
pub proof fn law_the_first_endpoint_counts(rest: Seq<Seq<char>>, k: int)
    requires
        0 <= k <= rest.len(),
        forall|j: int| 0 <= j < k ==> #[trigger] rest[j] != "--endpoint"@,
        k < rest.len() ==> rest[k] == "--endpoint"@,
    ensures
        k + 1 < rest.len() ==> endpoint_of(rest) == Ok::<Seq<char>, Seq<char>>(rest[k + 1]),
        k + 1 >= rest.len() ==> endpoint_of(rest) is Err,
    decreases rest.len(),
{
    if k > 0 {
        assert(rest[0] != "--endpoint"@);
        let tail = rest.drop_first();
        assert forall|j: int| 0 <= j < k - 1 implies #[trigger] tail[j] != "--endpoint"@ by {
            assert(tail[j] == rest[j + 1]);
        }
        law_the_first_endpoint_counts(tail, k - 1);
    }
}

/// A gate that passed is in order; one that did not ends with thirteen, and one
/// that could not be run with ten and the reason.
pub proof fn law_a_gate_ends_with_its_own_code(
    passed: Result<bool, String>,
    r: Result<(), Exit>,
)
    requires
        call_ensures(judge_comparison, (&passed,), r),
    ensures
        r is Ok <==> passed == Ok::<bool, String>(true),
        passed == Ok::<bool, String>(false) ==> r->Err_0.code == 13,
        passed matches Err(why) ==> r->Err_0.code == 10 && r->Err_0.detail@ == why@,
{
}

/// A soak and a replay last as long as was said, and half an hour where nothing
/// was; whatever else was said reaches the lane as it is.
pub proof fn law_a_run_lasts_as_said_or_half_an_hour(
    soak: SoakArgs,
    options: crate::soak::Options,
    replay: ReplayArgs,
    line_bytes: usize,
    build: BuildOptions,
)
    requires
        call_ensures(SoakArgs::options, (&soak,), options),
        call_ensures(ReplayArgs::build, (&replay, line_bytes), build),
    ensures
        soak.duration matches Some(ns) ==> options.duration_ns == ns,
        soak.duration is None ==> options.duration_ns == 30 * 60 * 1_000_000_000,
        options.lines_per_second == soak.rate,
        options.line_bytes == soak.line_bytes,
        options.checksum_every == soak.checksum_every,
        options.monitor_interval_ns == soak.monitor_interval,
        options.warmup_ns == soak.warmup,
        replay.duration matches Some(ns) ==> build.duration_ns == ns,
        replay.duration is None ==> build.duration_ns == 30 * 60 * 1_000_000_000,
        build.mode == replay.mode,
        build.idle_threshold_ns == replay.idle_threshold,
        build.idle_divisor == replay.idle_divisor,
        build.line_bytes == line_bytes,
{
}

} // verus!
