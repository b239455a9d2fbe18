//! One measured session, seen from the lane that measures it: what arrives,
//! when the stream is over, and the scenario text that a child is handed.
use vstd::prelude::*;
use vstd::string::*;

use crate::text::{
    chars_of, code_of, decimal, digit, hex, hex_digit, is_digit, law_decimal_reads_back,
    lemma_decimal_digits, push_hex, push_u128, push_u64, text_result,
};

verus! {

/// Terminal columns for the generated-stream lanes: wide enough that no line
/// they emit wraps under a re-rendering terminal.
pub const COLS: u16 = 200;

/// Terminal rows for the generated-stream lanes.
pub const ROWS: u16 = 50;

/// How long any single blocking step may take, in nanoseconds.
pub const STEP_TIMEOUT: u128 = 20_000_000_000;

/// How often a lane's read loop wakes when nothing is arriving, in nanoseconds.
pub const PUMP_TICK: u64 = 250_000_000;

/// How long a stream must stay quiet after its child exits before the run
/// counts as over, in nanoseconds.
pub const EXIT_QUIET_GRACE: u64 = 2_000_000_000;

/// One tick of a read loop.
#[derive(Clone, Debug)]
pub enum Pump {
    /// A chunk, and the reading of the shared clock when it arrived.
    Data { at_ns: u64, bytes: Vec<u8> },
    /// Nothing arrived. `exited` is whether the child has exited, or `None`
    /// where its state could not be read.
    Quiet { exited: Option<bool> },
    /// The reader reached the end of the stream.
    Ended,
}

/// What a lane does after a tick.
#[derive(Debug)]
pub enum Step {
    /// Go on reading.
    Continue,
    /// The run is over.
    Finish,
    /// The run failed.
    Fail(String),
}

/// The time from one reading to a later one; zero where it is not later.
pub open spec fn elapsed(since: u64, now: u64) -> nat {
    if now > since {
        (now - since) as nat
    } else {
        0
    }
}

/// The end-of-run judgement for a lane whose completion condition might never
/// be met: over when the child has exited and nothing has arrived for a grace
/// period. Times are readings of one monotonic clock, in nanoseconds.
#[derive(Clone, Copy, Debug)]
pub struct EndWatch {
    pub last_data: u64,
    pub exit_quiet_since: Option<u64>,
}

/// Since when an exited child's stream has been quiet, after a quiet tick.
pub open spec fn quiet_since(w: EndWatch, exited: Option<bool>, now: u64) -> Option<u64> {
    if exited == Some(true) {
        match w.exit_quiet_since {
            Some(since) => Some(since),
            None => Some(now),
        }
    } else {
        None
    }
}

/// Whether a quiet tick ends the run.
pub open spec fn is_over(w: EndWatch, exited: Option<bool>, now: u64) -> bool {
    quiet_since(w, exited, now) matches Some(since) && elapsed(since, now) >= EXIT_QUIET_GRACE
}

/// The watch after a tick.
pub open spec fn watch_after(w: EndWatch, tick: Pump, now: u64) -> EndWatch {
    match tick {
        Pump::Data { .. } => EndWatch { last_data: now, exit_quiet_since: None },
        Pump::Quiet { exited } => EndWatch {
            exit_quiet_since: quiet_since(w, exited, now),
            ..w
        },
        Pump::Ended => w,
    }
}

impl EndWatch {
    /// A watch that starts now.
    pub fn new(now: u64) -> (w: Self)
        ensures
            w == (EndWatch { last_data: now, exit_quiet_since: None }),
    {
        EndWatch { last_data: now, exit_quiet_since: None }
    }

    /// Data arrived: the stream is alive, whatever the child's state.
    pub fn data(&mut self, now: u64)
        ensures
            *final(self) == (EndWatch { last_data: now, exit_quiet_since: None }),
    {
        self.last_data = now;
        self.exit_quiet_since = None;
    }

    /// A quiet tick: whether the run counts as over.
    pub fn ended(&mut self, exited: Option<bool>, now: u64) -> (over: bool)
        ensures
            over == is_over(*old(self), exited, now),
            *final(self) == (EndWatch {
                exit_quiet_since: quiet_since(*old(self), exited, now),
                ..*old(self)
            }),
    {
        let gone = match exited {
            Some(e) => e,
            None => false,
        };
        if gone {
            let since: u64 = match self.exit_quiet_since {
                Some(s) => s,
                None => now,
            };
            self.exit_quiet_since = Some(since);
            now.saturating_sub(since) >= EXIT_QUIET_GRACE
        } else {
            self.exit_quiet_since = None;
            false
        }
    }

    /// How long since anything arrived.
    pub fn since_data(&self, now: u64) -> (ns: u64)
        ensures
            ns == elapsed(self.last_data, now),
    {
        now.saturating_sub(self.last_data)
    }
}

/// Data always keeps a run alive: right after it, no quiet tick within the
/// grace period ends the run, whatever the child's state.
pub proof fn law_data_keeps_a_run_alive(
    w: EndWatch,
    at: u64,
    bytes: Vec<u8>,
    exited: Option<bool>,
    arrived: u64,
    now: u64,
)
    requires
        elapsed(arrived, now) < EXIT_QUIET_GRACE,
    ensures
        !is_over(watch_after(w, Pump::Data { at_ns: at, bytes }, arrived), exited, now),
{
}

/// A child that is not known to have exited never ends a run by being quiet.
pub proof fn law_a_living_child_never_ends_a_run(w: EndWatch, exited: Option<bool>, now: u64)
    requires
        exited != Some(true),
    ensures
        !is_over(w, exited, now),
        quiet_since(w, exited, now) is None,
{
}

/// One poll of a child that should exit on its own.
#[derive(Clone, Debug)]
pub enum ChildPoll {
    Exited { code: u32 },
    Running,
    Failed { error: String },
}

/// What waiting for a child comes to.
#[derive(Debug)]
pub enum ExitStep {
    /// Poll again.
    Wait,
    /// Kill it; the text goes before what the kill reports.
    Kill(String),
    /// Done, with what happened.
    Done(String),
}

/// Decide one poll of a child that should exit on its own within `timeout_ns`.
pub fn wait_for_exit(poll: &ChildPoll, elapsed_ns: u64, timeout_ns: u128) -> (step: ExitStep)
    ensures
        match step {
            ExitStep::Wait => poll is Running && elapsed_ns < timeout_ns,
            ExitStep::Kill(text) => poll is Running && elapsed_ns >= timeout_ns && text@
                == "child still running after "@ + decimal((timeout_ns / 1_000_000_000) as nat)
                + " s; "@,
            ExitStep::Done(text) => match *poll {
                ChildPoll::Exited { code } => text@ == "child exited with code "@ + decimal(
                    code as nat,
                ) + " after "@ + decimal((elapsed_ns / 1_000_000) as nat) + " ms"@,
                ChildPoll::Failed { error } => text@ == "child wait failed: "@ + error@,
                ChildPoll::Running => false,
            },
        },
{
    match poll {
        ChildPoll::Exited { code } => {
            let mut text = "child exited with code ".to_owned();
            push_u64(&mut text, *code as u64);
            text.append(" after ");
            push_u64(&mut text, elapsed_ns / 1_000_000);
            text.append(" ms");
            ExitStep::Done(text)
        },
        ChildPoll::Running => {
            if elapsed_ns as u128 >= timeout_ns {
                let mut text = "child still running after ".to_owned();
                push_u128(&mut text, timeout_ns / 1_000_000_000);
                text.append(" s; ");
                ExitStep::Kill(text)
            } else {
                ExitStep::Wait
            }
        },
        ChildPoll::Failed { error } => {
            let mut text = "child wait failed: ".to_owned();
            text.append(error.as_str());
            ExitStep::Done(text)
        },
    }
}

/// The name of a scenario file.
pub open spec fn scenario_name(pid: nat, serial: nat, name: Seq<char>) -> Seq<char> {
    "agent-bridge-perf-"@ + decimal(pid) + "-"@ + decimal(serial) + "-"@ + name + ".json"@
}

/// Two scenario files have different names unless they belong to one call of one
/// process.
pub proof fn law_scenario_files_never_clash(
    pid: nat,
    serial: nat,
    name: Seq<char>,
    other_pid: nat,
    other_serial: nat,
    other_name: Seq<char>,
)
    requires
        scenario_name(pid, serial, name) == scenario_name(other_pid, other_serial, other_name),
    ensures
        pid == other_pid,
        serial == other_serial,
        name == other_name,
{
    lemma_scenario_parts(pid, serial, name);
    lemma_scenario_parts(other_pid, other_serial, other_name);
    let tail = name + ".json"@;
    let other_tail = other_name + ".json"@;
    let rest = decimal(serial) + (seq!['-'] + tail);
    let other_rest = decimal(other_serial) + (seq!['-'] + other_tail);
    lemma_number_before_hyphen(pid, rest, other_pid, other_rest);
    lemma_number_before_hyphen(serial, tail, other_serial, other_tail);
    lemma_front(name, ".json"@);
    lemma_front(other_name, ".json"@);
}

/// What stands behind the lead of a scenario file's name.
#[verifier::rlimit(30)]
proof fn lemma_scenario_parts(pid: nat, serial: nat, name: Seq<char>)
    ensures
        scenario_name(pid, serial, name).skip("agent-bridge-perf-"@.len() as int) == decimal(pid)
            + (seq!['-'] + (decimal(serial) + (seq!['-'] + (name + ".json"@)))),
{
    reveal_strlit("-");
    let lead = "agent-bridge-perf-"@;
    let (p, q, end) = (decimal(pid), decimal(serial), ".json"@);
    let hyphen = seq!['-'];
    assert("-"@ =~= hyphen);
    let rest = q + (hyphen + (name + end));
    assert(q + hyphen + name + end =~= rest);
    assert(lead + p + hyphen + q + hyphen + name + end =~= lead + (p + (hyphen + rest)));
    assert((lead + (p + (hyphen + rest))).skip(lead.len() as int) =~= p + (hyphen + rest));
}

proof fn lemma_front(front: Seq<char>, end: Seq<char>)
    ensures
        front == (front + end).take((front + end).len() - end.len()),
{
    assert(front =~= (front + end).take((front + end).len() - end.len()));
}

/// A number is read off the front of a text up to the first hyphen.
#[verifier::rlimit(30)]
proof fn lemma_number_before_hyphen(a: nat, rest: Seq<char>, b: nat, other: Seq<char>)
    requires
        decimal(a) + (seq!['-'] + rest) == decimal(b) + (seq!['-'] + other),
    ensures
        a == b,
        rest == other,
{
    let whole = decimal(a) + (seq!['-'] + rest);
    let (n, m) = (decimal(a).len() as int, decimal(b).len() as int);
    lemma_decimal_digits(a);
    lemma_decimal_digits(b);
    assert(whole[n] == '-');
    assert(whole[m] == '-');
    if n < m {
        assert(whole[n] == decimal(b)[n]);
    }
    if m < n {
        assert(whole[m] == decimal(a)[m]);
    }
    assert(decimal(a) =~= whole.take(n));
    assert(decimal(b) =~= whole.take(n));
    assert(rest =~= whole.skip(n + 1));
    assert(other =~= whole.skip(n + 1));
    let max = if a > b {
        a
    } else {
        b
    };
    law_decimal_reads_back(a, max);
    law_decimal_reads_back(b, max);
}

/// The name of a scenario file, unique to a process and a call.
pub fn scenario_file_name(pid: u32, serial: u64, name: &str) -> (file: String)
    ensures
        file@ == scenario_name(pid as nat, serial as nat, name@),
{
    let mut file = "agent-bridge-perf-".to_owned();
    push_u64(&mut file, pid as u64);
    file.append("-");
    push_u64(&mut file, serial);
    file.append("-");
    file.append(name);
    file.append(".json");
    file
}

/// The directory that holds the programs built beside one. A test program stands
/// in the `deps` directory below it, so one level of `deps` is stepped over;
/// nothing else is searched. `parent` is the program's own directory, `above` the
/// one that it stands in.
pub open spec fn sibling_dir_of(
    parent: Option<Seq<char>>,
    in_deps: bool,
    above: Option<Seq<char>>,
) -> Result<Seq<char>, Seq<char>> {
    match parent {
        None => Err("current_exe has no parent directory"@),
        Some(dir) => if in_deps {
            match above {
                Some(dir) => Ok(dir),
                None => Err("the deps directory has no parent"@),
            }
        } else {
            Ok(dir)
        },
    }
}

/// The directory that holds the programs built beside one.
pub fn sibling_dir(parent: Option<&str>, in_deps: bool, above: Option<&str>) -> (r: Result<
    String,
    String,
>)
    ensures
        text_result(r) == sibling_dir_of(
            match parent {
                Some(dir) => Some(dir@),
                None => None,
            },
            in_deps,
            match above {
                Some(dir) => Some(dir@),
                None => None,
            },
        ),
{
    match parent {
        None => Err("current_exe has no parent directory".to_owned()),
        Some(dir) => if in_deps {
            match above {
                Some(dir) => Ok(dir.to_owned()),
                None => Err("the deps directory has no parent".to_owned()),
            }
        } else {
            Ok(dir.to_owned())
        },
    }
}

/// What is said of a program that is not where it should be.
pub fn missing_binary(path: &str) -> (text: String)
    ensures
        text@ == "binary not found at "@ + path@ + " \u{2014} build the workspace first"@,
{
    let mut text = "binary not found at ".to_owned();
    text.append(path);
    text.append(" \u{2014} build the workspace first");
    text
}

/// How a character stands inside a JSON string.
pub open spec fn json_escape(c: char) -> Seq<char> {
    if c == '"' {
        seq!['\\', '"']
    } else if c == '\\' {
        seq!['\\', '\\']
    } else if c == '\n' {
        seq!['\\', 'n']
    } else if c == '\r' {
        seq!['\\', 'r']
    } else if c == '\t' {
        seq!['\\', 't']
    } else if (c as u32) < 0x20 {
        seq!['\\', 'u'] + hex(c as nat, 4, false)
    } else {
        seq![c]
    }
}

/// How a text stands inside a JSON string.
pub open spec fn json_body(s: Seq<char>) -> Seq<char>
    decreases s.len(),
{
    if s.len() == 0 {
        Seq::empty()
    } else {
        json_body(s.drop_last()) + json_escape(s.last())
    }
}

/// A text as a JSON string literal.
pub open spec fn json_literal(s: Seq<char>) -> Seq<char> {
    seq!['"'] + json_body(s) + seq!['"']
}

/// A JSON string literal.
pub fn json_string(text: &str) -> (literal: String)
    ensures
        literal@ == json_literal(text@),
{
    let chars = chars_of(text);
    let mut out = String::new();
    out.push('"');
    let mut i: usize = 0;
    proof {
        assert(chars@.take(0) =~= Seq::empty());
        assert(out@ =~= seq!['"'] + json_body(chars@.take(0)));
    }
    while i < chars.len()
        invariant
            i <= chars@.len(),
            out@ == seq!['"'] + json_body(chars@.take(i as int)),
        decreases chars@.len() - i,
    {
        let c: char = chars[i];
        let code: u32 = code_of(c);
        let ghost before = out@;
        let ghost body = json_body(chars@.take(i as int));
        if c == '"' {
            out.push('\\');
            out.push('"');
        } else if c == '\\' {
            out.push('\\');
            out.push('\\');
        } else if c == '\n' {
            out.push('\\');
            out.push('n');
        } else if c == '\r' {
            out.push('\\');
            out.push('r');
        } else if c == '\t' {
            out.push('\\');
            out.push('t');
        } else if code < 0x20 {
            out.push('\\');
            out.push('u');
            push_hex(&mut out, code as u64, 4, false);
            assert(out@ =~= before + (seq!['\\', 'u'] + hex(c as nat, 4, false)));
        } else {
            out.push(c);
        }
        i += 1;
        proof {
            assert(out@ =~= before + json_escape(c));
            assert(chars@.take(i as int).drop_last() =~= chars@.take(i - 1));
            assert(seq!['"'] + body + json_escape(c) =~= seq!['"'] + (body + json_escape(c)));
        }
    }
    assert(chars@.take(i as int) =~= chars@);
    out.push('"');
    assert(out@ =~= json_literal(chars@));
    out
}

/// The value of a hexadecimal digit.
pub open spec fn hex_value(c: char) -> Option<nat> {
    if is_digit(c) {
        Some((c as u32 - 48) as nat)
    } else if 'a' <= c <= 'f' {
        Some((c as u32 - 87) as nat)
    } else if 'A' <= c <= 'F' {
        Some((c as u32 - 55) as nat)
    } else {
        None
    }
}

/// The character that the escape at the front of `t` stands for, and how many
/// characters the escape takes. `None` where it is no escape of the grammar.
pub open spec fn json_unescape(t: Seq<char>) -> Option<(char, int)> {
    if t.len() < 2 || t[0] != '\\' {
        None
    } else if t[1] == '"' || t[1] == '\\' || t[1] == '/' {
        Some((t[1], 2))
    } else if t[1] == 'b' {
        Some(('\x08', 2))
    } else if t[1] == 'f' {
        Some(('\x0c', 2))
    } else if t[1] == 'n' {
        Some(('\n', 2))
    } else if t[1] == 'r' {
        Some(('\r', 2))
    } else if t[1] == 't' {
        Some(('\t', 2))
    } else if t[1] == 'u' && t.len() >= 6 {
        match (hex_value(t[2]), hex_value(t[3]), hex_value(t[4]), hex_value(t[5])) {
            (Some(a), Some(b), Some(c), Some(d)) => {
                let v = a * 4096 + b * 256 + c * 16 + d;
                if 0xd800 <= v <= 0xdfff {
                    None
                } else {
                    Some((v as char, 6))
                }
            },
            _ => None,
        }
    } else {
        None
    }
}

/// What the inside of a JSON string stands for, by the JSON grammar: no bare
/// quote, no bare control character, escapes as the grammar has them.
pub open spec fn json_read(t: Seq<char>) -> Option<Seq<char>>
    decreases t.len(),
{
    if t.len() == 0 {
        Some(Seq::empty())
    } else if t[0] == '"' || (t[0] as u32) < 0x20 {
        None
    } else if t[0] == '\\' {
        match json_unescape(t) {
            Some((c, n)) => if 2 <= n <= t.len() {
                match json_read(t.skip(n)) {
                    Some(rest) => Some(seq![c] + rest),
                    None => None,
                }
            } else {
                None
            },
            None => None,
        }
    } else {
        match json_read(t.drop_first()) {
            Some(rest) => Some(seq![t[0]] + rest),
            None => None,
        }
    }
}

/// A literal reads back as the text it was made from: what `json_string`
/// writes, the JSON grammar reads.
pub proof fn law_a_json_literal_reads_back(s: Seq<char>)
    ensures
        json_literal(s).len() >= 2,
        json_literal(s)[0] == '"',
        json_literal(s).last() == '"',
        json_read(json_literal(s).subrange(1, json_literal(s).len() - 1)) == Some(s),
{
    assert(json_literal(s).subrange(1, json_literal(s).len() - 1) =~= json_body(s));
    lemma_json_reads(s, Seq::empty(), Seq::empty());
    assert(json_body(s) + Seq::<char>::empty() =~= json_body(s));
    assert(s + Seq::<char>::empty() =~= s);
}

proof fn lemma_json_reads(s: Seq<char>, tail: Seq<char>, read: Seq<char>)
    requires
        json_read(tail) == Some(read),
    ensures
        json_read(json_body(s) + tail) == Some(s + read),
    decreases s.len(),
{
    if s.len() == 0 {
        assert(json_body(s) + tail =~= tail);
        assert(s + read =~= read);
    } else {
        let c = s.last();
        let more = json_escape(c) + tail;
        lemma_json_reads_one(c, tail, read);
        lemma_json_reads(s.drop_last(), more, seq![c] + read);
        assert(json_body(s) + tail =~= json_body(s.drop_last()) + more);
        assert(s.drop_last() + (seq![c] + read) =~= s + read);
    }
}

pub proof fn lemma_json_reads_one(c: char, tail: Seq<char>, read: Seq<char>)
    requires
        json_read(tail) == Some(read),
    ensures
        json_read(json_escape(c) + tail) == Some(seq![c] + read),
{
    let t = json_escape(c) + tail;
    if c == '"' || c == '\\' || c == '\n' || c == '\r' || c == '\t' {
        assert(t[0] == '\\');
        assert(t.skip(2) =~= tail);
    } else if (c as u32) < 0x20 {
        let n = c as nat;
        reveal_with_fuel(hex, 5);
        assert(hex(n, 4, false) =~= seq![
            hex_digit(n / 16 / 16 / 16 % 16, false),
            hex_digit(n / 16 / 16 % 16, false),
            hex_digit(n / 16 % 16, false),
            hex_digit(n % 16, false),
        ]);
        assert(t[0] == '\\' && t[1] == 'u');
        assert(t[2] == digit(0) && t[3] == digit(0));
        assert(t[4] == digit(n / 16));
        assert(t[5] == hex_digit(n % 16, false));
        assert(hex_value(t[5]) == Some(n % 16));
        assert(hex_value(t[4]) == Some(n / 16));
        assert(json_unescape(t) == Some((c, 6int)));
        assert(t.skip(6) =~= tail);
    } else {
        assert(t[0] == c);
        assert(t.drop_first() =~= tail);
    }
}

/// A run is over at a quiet tick exactly when the child is known to have exited
/// and the watch has held it quiet and exited for two seconds. A quiet tick never
/// moves the last data; data does, and what was quiet before it no longer counts.
pub proof fn law_a_run_is_over_two_quiet_seconds_after_the_exit(
    w: EndWatch,
    exited: Option<bool>,
    now: u64,
    at: u64,
    bytes: Vec<u8>,
)
    ensures
        is_over(w, exited, now) <==> exited == Some(true) && w.exit_quiet_since is Some && now
            >= w.exit_quiet_since->0 + 2_000_000_000,
        watch_after(w, Pump::Quiet { exited }, now).last_data == w.last_data,
        exited == Some(true) && w.exit_quiet_since is Some ==> watch_after(
            w,
            Pump::Quiet { exited },
            now,
        ).exit_quiet_since == w.exit_quiet_since,
        exited == Some(true) && w.exit_quiet_since is None ==> watch_after(
            w,
            Pump::Quiet { exited },
            now,
        ).exit_quiet_since == Some(now),
        exited != Some(true) ==> watch_after(
            w,
            Pump::Quiet { exited },
            now,
        ).exit_quiet_since is None,
        watch_after(w, Pump::Data { at_ns: at, bytes }, now).last_data == now,
        watch_after(w, Pump::Data { at_ns: at, bytes }, now).exit_quiet_since is None,
        watch_after(w, Pump::Ended, now) == w,
{
}

/// The time between two readings added to the first is the second, and nothing
/// where the second is not later.
pub proof fn law_elapsed_time_leads_to_now(since: u64, now: u64)
    ensures
        since <= now ==> since + elapsed(since, now) == now,
        since >= now ==> elapsed(since, now) == 0,
{
}

/// A program is looked for beside the one that runs, or one directory up where
/// that one stands among the built tests.
pub proof fn law_one_deps_directory_is_stepped_over(dir: Seq<char>, above: Seq<char>)
    ensures
        sibling_dir_of(Some(dir), false, Some(above)) == Ok::<Seq<char>, Seq<char>>(dir),
        sibling_dir_of(Some(dir), false, None) == Ok::<Seq<char>, Seq<char>>(dir),
        sibling_dir_of(Some(dir), true, Some(above)) == Ok::<Seq<char>, Seq<char>>(above),
        sibling_dir_of(Some(dir), true, None) is Err,
        sibling_dir_of(None, false, Some(above)) is Err,
        sibling_dir_of(None, true, Some(above)) is Err,
{
}

/// Waiting for an exit goes on exactly as long as the child runs and the time is
/// not up, ends in a kill exactly when it still runs then, and otherwise says what
/// became of the child, however long it took.
pub proof fn law_waiting_for_an_exit_is_bounded(
    poll: ChildPoll,
    elapsed_ns: u64,
    timeout_ns: u128,
    step: ExitStep,
)
    requires
        call_ensures(wait_for_exit, (&poll, elapsed_ns, timeout_ns), step),
    ensures
        step is Wait <==> poll is Running && elapsed_ns < timeout_ns,
        step is Kill <==> poll is Running && timeout_ns <= elapsed_ns,
        step is Done <==> !(poll is Running),
        poll matches ChildPoll::Exited { code } ==> step->Done_0@ == "child exited with code "@
            + decimal(code as nat) + " after "@ + decimal((elapsed_ns / 1_000_000) as nat) + " ms"@,
        poll matches ChildPoll::Failed { error } ==> step->Done_0@ == "child wait failed: "@
            + error@,
        step matches ExitStep::Kill(text) ==> text@ == "child still running after "@ + decimal(
            (timeout_ns / 1_000_000_000) as nat,
        ) + " s; "@,
{
}

} // verus!
