//! Output-timing measurements: spawn to first output byte, and prompt submit to
//! the next output byte. The clock is fed readings of a monotonic clock, in
//! nanoseconds, rather than reading time itself.
use vstd::prelude::*;

use crate::session::elapsed;

verus! {

/// When a session's first bytes came.
#[derive(Clone, Copy, Debug)]
pub struct FirstTokenClock {
    spawn: u64,
    first_byte: Option<u64>,
    submit: Option<u64>,
    first_after_submit: Option<u64>,
}

/// The readings that a clock keeps.
pub struct Readings {
    pub spawn: u64,
    pub first_byte: Option<u64>,
    pub submit: Option<u64>,
    pub first_after_submit: Option<u64>,
}

impl View for FirstTokenClock {
    type V = Readings;

    closed spec fn view(&self) -> Readings {
        Readings {
            spawn: self.spawn,
            first_byte: self.first_byte,
            submit: self.submit,
            first_after_submit: self.first_after_submit,
        }
    }
}

/// A reading that is fixed once it is there.
pub open spec fn first_of(kept: Option<u64>, at: u64) -> Option<u64> {
    match kept {
        Some(earlier) => Some(earlier),
        None => Some(at),
    }
}

impl Readings {
    /// The readings after an output chunk.
    pub open spec fn after_chunk(self, at: u64) -> Readings {
        Readings {
            first_byte: first_of(self.first_byte, at),
            first_after_submit: if self.submit is Some {
                first_of(self.first_after_submit, at)
            } else {
                self.first_after_submit
            },
            ..self
        }
    }

    /// The readings after a prompt submit.
    pub open spec fn after_submit(self, at: u64) -> Readings {
        Readings { submit: first_of(self.submit, at), ..self }
    }
}

impl FirstTokenClock {
    /// A clock that measures from the spawn.
    pub fn new(spawn: u64) -> (c: Self)
        ensures
            c@ == (Readings {
                spawn,
                first_byte: None,
                submit: None,
                first_after_submit: None,
            }),
    {
        FirstTokenClock { spawn, first_byte: None, submit: None, first_after_submit: None }
    }

    /// An output chunk arrived. The first one fixes the launch measurement; the
    /// first one after a submit fixes the after-submit one.
    pub fn note_chunk(&mut self, at: u64)
        ensures
            final(self)@ == old(self)@.after_chunk(at),
    {
        if self.first_byte.is_none() {
            self.first_byte = Some(at);
        }
        if self.submit.is_some() && self.first_after_submit.is_none() {
            self.first_after_submit = Some(at);
        }
    }

    /// The prompt was submitted. Only the first submit is measured.
    pub fn note_submit(&mut self, at: u64)
        ensures
            final(self)@ == old(self)@.after_submit(at),
    {
        if self.submit.is_none() {
            self.submit = Some(at);
        }
    }

    /// The spawn that this clock measures from.
    pub fn spawn_instant(&self) -> (at: u64)
        ensures
            at == self@.spawn,
    {
        self.spawn
    }

    /// Spawn to first output byte.
    pub fn launch_latency(&self) -> (ns: Option<u64>)
        ensures
            match self@.first_byte {
                Some(at) => ns matches Some(n) && n == elapsed(self@.spawn, at),
                None => ns is None,
            },
    {
        match self.first_byte {
            Some(at) => Some(at.saturating_sub(self.spawn)),
            None => None,
        }
    }

    /// Prompt submit to next output byte.
    pub fn first_output_after_submit(&self) -> (ns: Option<u64>)
        ensures
            match (self@.submit, self@.first_after_submit) {
                (Some(submit), Some(first)) => ns matches Some(n) && n == elapsed(submit, first),
                _ => ns is None,
            },
    {
        match (self.submit, self.first_after_submit) {
            (Some(submit), Some(first)) => Some(first.saturating_sub(submit)),
            _ => None,
        }
    }

    /// Prompt submit to `at`.
    pub fn since_submit(&self, at: u64) -> (ns: Option<u64>)
        ensures
            match self@.submit {
                Some(submit) => ns matches Some(n) && n == elapsed(submit, at),
                None => ns is None,
            },
    {
        match self.submit {
            Some(submit) => Some(at.saturating_sub(submit)),
            None => None,
        }
    }
}

/// Measurements are fixed by the first event that counts: a later chunk or a
/// later submit changes none of them, and a chunk before the submit never
/// enters the after-submit measurement.
pub proof fn law_measurements_are_fixed_once(r: Readings, first: u64, later: u64)
    ensures
        r.after_chunk(first).after_chunk(later) == r.after_chunk(first),
        r.after_submit(first).after_submit(later) == r.after_submit(first),
        r.submit is None ==> r.after_chunk(first).first_after_submit == r.first_after_submit,
        r.after_chunk(first).first_byte is Some,
{
}

/// The launch is measured to the first output, and a submit to the first output
/// behind it; a submit moves nothing else.
pub proof fn law_each_measurement_takes_its_own_event(
    spawn: u64,
    chunk: u64,
    submit: u64,
    answer: u64,
)
    ensures
        ({
            let fresh = Readings {
                spawn,
                first_byte: None,
                submit: None,
                first_after_submit: None,
            };
            let started = fresh.after_chunk(chunk);
            let asked = started.after_submit(submit);
            let answered = asked.after_chunk(answer);
            &&& started == (Readings { first_byte: Some(chunk), ..fresh })
            &&& asked == (Readings { submit: Some(submit), ..started })
            &&& answered == (Readings { first_after_submit: Some(answer), ..asked })
        }),
{
}

/// The launch latency leads from the spawn to the first byte of output, and the
/// turn latency from the prompt to the first byte behind it. Neither is there
/// before that byte is.
pub proof fn law_a_latency_leads_to_its_byte(
    clock: FirstTokenClock,
    launch: Option<u64>,
    turn: Option<u64>,
)
    requires
        call_ensures(FirstTokenClock::launch_latency, (&clock,), launch),
        call_ensures(FirstTokenClock::first_output_after_submit, (&clock,), turn),
    ensures
        launch is Some <==> clock@.first_byte is Some,
        launch matches Some(ns) ==> (clock@.first_byte->0 >= clock@.spawn ==> clock@.spawn + ns
            == clock@.first_byte->0),
        turn is Some <==> clock@.submit is Some && clock@.first_after_submit is Some,
        turn matches Some(ns) ==> (clock@.first_after_submit->0 >= clock@.submit->0
            ==> clock@.submit->0 + ns == clock@.first_after_submit->0),
{
}

/// The time since the prompt leads from it to the reading asked about.
pub proof fn law_time_since_the_prompt_leads_to_the_reading(
    clock: FirstTokenClock,
    at: u64,
    since: Option<u64>,
)
    requires
        call_ensures(FirstTokenClock::since_submit, (&clock, at), since),
    ensures
        since is Some <==> clock@.submit is Some,
        since matches Some(ns) ==> (at >= clock@.submit->0 ==> clock@.submit->0 + ns == at),
{
}

} // verus!
