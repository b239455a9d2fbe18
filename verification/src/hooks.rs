//! The hook side of a live session: the settings that register the forwarder
//! for every hook, the listener's replies, and what the forwarder prints.
//!
//! Each hook command receives its event as one JSON object, discriminated by
//! `hook_event_name`. A `PreToolUse` hook decides the pending tool call by
//! printing a decision; a forwarding failure degrades to no opinion.
use vstd::prelude::*;
use vstd::string::*;

use crate::json::{
    compact, field, field_in, fields_view, flat, flat_fields, flat_numbers, json_reading,
    law_a_value_is_one_line, list_view, number, read_json, string, text_field, Json, JsonView,
};
use crate::lines::{decode_lossy, lossy};
use crate::text::{decimal, same_text, trim, trimmed};

verus! {

/// The hooks that are registered.
pub const HOOK_EVENTS: [&'static str; 7] = [
    "PreToolUse",
    "PostToolUse",
    "SessionStart",
    "SessionEnd",
    "Notification",
    "Stop",
    "PreCompact",
];

/// How long the CLI waits for a tool hook's reply, in seconds.
pub const TOOL_HOOK_TIMEOUT_SECS: u32 = 30;

/// The command that a hook runs.
pub open spec fn command_view(command: Seq<char>, tool: bool) -> JsonView {
    JsonView::Object(
        if tool {
            seq![
                ("command"@, JsonView::Text(command)),
                (
                    "timeout"@,
                    JsonView::Number(
                        decimal(TOOL_HOOK_TIMEOUT_SECS as nat),
                        Some(TOOL_HOOK_TIMEOUT_SECS as u64),
                    ),
                ),
                ("type"@, JsonView::Text("command"@)),
            ]
        } else {
            seq![("command"@, JsonView::Text(command)), ("type"@, JsonView::Text("command"@))]
        },
    )
}

/// The registration of a hook. The hooks of the tool lifecycle match every tool
/// and carry a timeout, since the CLI blocks on their reply.
pub open spec fn entry_view(command: Seq<char>, tool: bool) -> JsonView {
    let hooks = JsonView::List(seq![command_view(command, tool)]);
    JsonView::List(
        seq![
            JsonView::Object(
                if tool {
                    seq![("hooks"@, hooks), ("matcher"@, JsonView::Text(""@))]
                } else {
                    seq![("hooks"@, hooks)]
                },
            ),
        ],
    )
}

/// The registrations of every hook, in key order.
pub open spec fn registrations_view(command: Seq<char>) -> Seq<(Seq<char>, JsonView)> {
    seq![
        ("Notification"@, entry_view(command, false)),
        ("PostToolUse"@, entry_view(command, true)),
        ("PreCompact"@, entry_view(command, false)),
        ("PreToolUse"@, entry_view(command, true)),
        ("SessionEnd"@, entry_view(command, false)),
        ("SessionStart"@, entry_view(command, false)),
        ("Stop"@, entry_view(command, false)),
    ]
}

/// The settings that route every hook to one command.
pub open spec fn settings_view(command: Seq<char>) -> JsonView {
    JsonView::Object(seq![("hooks"@, JsonView::Object(registrations_view(command)))])
}

fn command_json(command: &str, tool: bool) -> (json: Json)
    ensures
        json@ == command_view(command@, tool),
{
    let mut fields: Vec<(String, Json)> = Vec::new();
    fields.push(("command".to_owned(), string(command)));
    if tool {
        fields.push(("timeout".to_owned(), number(TOOL_HOOK_TIMEOUT_SECS as u64)));
    }
    fields.push(("type".to_owned(), string("command")));
    let json = Json::Object(fields);
    assert(fields_view(fields@) =~= command_view(command@, tool)->Object_0);
    json
}

fn entry_json(command: &str, tool: bool) -> (json: Json)
    ensures
        json@ == entry_view(command@, tool),
{
    let mut commands: Vec<Json> = Vec::new();
    commands.push(command_json(command, tool));
    assert(list_view(commands@) =~= seq![command_view(command@, tool)]);
    let hooks = Json::List(commands);
    let mut fields: Vec<(String, Json)> = Vec::new();
    fields.push(("hooks".to_owned(), hooks));
    if tool {
        fields.push(("matcher".to_owned(), string("")));
    }
    let ghost expected = entry_view(command@, tool)->List_0;
    assert(fields_view(fields@) =~= expected[0]->Object_0);
    let entry = Json::Object(fields);
    let mut list: Vec<Json> = Vec::new();
    list.push(entry);
    assert(list_view(list@) =~= expected);
    Json::List(list)
}

/// The settings that route every hook to one command.
pub fn settings_json(hook_command: &str) -> (settings: Json)
    ensures
        settings@ == settings_view(hook_command@),
{
    let mut hooks: Vec<(String, Json)> = Vec::new();
    hooks.push(("Notification".to_owned(), entry_json(hook_command, false)));
    hooks.push(("PostToolUse".to_owned(), entry_json(hook_command, true)));
    hooks.push(("PreCompact".to_owned(), entry_json(hook_command, false)));
    hooks.push(("PreToolUse".to_owned(), entry_json(hook_command, true)));
    hooks.push(("SessionEnd".to_owned(), entry_json(hook_command, false)));
    hooks.push(("SessionStart".to_owned(), entry_json(hook_command, false)));
    hooks.push(("Stop".to_owned(), entry_json(hook_command, false)));
    assert(fields_view(hooks@) =~= registrations_view(hook_command@));
    let inner = Json::Object(hooks);
    let mut fields: Vec<(String, Json)> = Vec::new();
    fields.push(("hooks".to_owned(), inner));
    assert(fields_view(fields@) =~= settings_view(hook_command@)->Object_0);
    Json::Object(fields)
}

/// The command line registered for every hook, with both paths quoted.
pub fn hook_command(probe_exe: &str, endpoint: &str) -> (command: String)
    ensures
        command@ == "\""@ + probe_exe@ + "\" hook-forward --endpoint \""@ + endpoint@ + "\""@,
{
    let mut command = "\"".to_owned();
    command.append(probe_exe);
    command.append("\" hook-forward --endpoint \"");
    command.append(endpoint);
    command.append("\"");
    command
}

/// What the listener answers to a tool call.
#[derive(Clone, Copy, PartialEq, Eq, Debug, Structural)]
pub enum Decision {
    /// No opinion: the CLI's own permission flow applies.
    NoOpinion,
    Allow,
    Deny,
    Ask,
}

impl Decision {
    /// The decision's word on the wire.
    pub open spec fn word(self) -> Seq<char> {
        match self {
            Decision::NoOpinion => "none"@,
            Decision::Allow => "allow"@,
            Decision::Deny => "deny"@,
            Decision::Ask => "ask"@,
        }
    }

    /// The decision's word on the wire.
    pub fn as_str(self) -> (word: &'static str)
        ensures
            word@ == self.word(),
    {
        match self {
            Decision::NoOpinion => "none",
            Decision::Allow => "allow",
            Decision::Deny => "deny",
            Decision::Ask => "ask",
        }
    }
}

/// The decision that a word names.
pub open spec fn decision_named(word: Seq<char>) -> Option<Decision> {
    if word == "allow"@ {
        Some(Decision::Allow)
    } else if word == "deny"@ {
        Some(Decision::Deny)
    } else if word == "ask"@ {
        Some(Decision::Ask)
    } else if word == "none"@ {
        Some(Decision::NoOpinion)
    } else {
        None
    }
}

/// The decision that a word names.
pub fn decision_of(word: &str) -> (decision: Option<Decision>)
    ensures
        decision == decision_named(word@),
{
    if same_text(word, "allow") {
        Some(Decision::Allow)
    } else if same_text(word, "deny") {
        Some(Decision::Deny)
    } else if same_text(word, "ask") {
        Some(Decision::Ask)
    } else if same_text(word, "none") {
        Some(Decision::NoOpinion)
    } else {
        None
    }
}

/// Every decision is named by its word.
pub proof fn law_a_decision_is_named_by_its_word(decision: Decision)
    ensures
        decision_named(decision.word()) == Some(decision),
{
    reveal_strlit("none");
    reveal_strlit("allow");
    reveal_strlit("deny");
    reveal_strlit("ask");
    assert("deny"@[0] != "none"@[0]);
    assert("deny"@.len() != "allow"@.len());
}

/// What the listener replies.
pub open spec fn reply_view(decision: Decision) -> JsonView {
    JsonView::Object(
        seq![
            ("decision"@, JsonView::Text(decision.word())),
            (
                "reason"@,
                JsonView::Text("interactive-probe external approver: "@ + decision.word()),
            ),
        ],
    )
}

/// The line that the listener replies to any payload: the current decision.
pub fn reply_for(decision: Decision) -> (line: String)
    ensures
        line@ == compact(reply_view(decision)) + "\n"@,
{
    let mut reason = "interactive-probe external approver: ".to_owned();
    reason.append(decision.as_str());
    let mut fields: Vec<(String, Json)> = Vec::new();
    fields.push(("decision".to_owned(), string(decision.as_str())));
    fields.push(("reason".to_owned(), Json::Text(reason)));
    assert(fields_view(fields@) =~= reply_view(decision)->Object_0);
    let mut line = Json::Object(fields).to_text();
    line.append("\n");
    line
}

/// A hook payload as received, with the time of its arrival.
#[derive(Debug)]
pub struct HookEvent {
    pub name: String,
    pub payload: Json,
    pub at: u64,
}

/// A hook event's contents.
pub struct HookEventView {
    pub name: Seq<char>,
    pub payload: JsonView,
    pub at: u64,
}

impl View for HookEvent {
    type V = HookEventView;

    open spec fn view(&self) -> HookEventView {
        HookEventView { name: self.name@, payload: self.payload@, at: self.at }
    }
}

/// A reading's contents.
pub open spec fn reading_view(reading: Result<Json, String>) -> Result<JsonView, Seq<char>> {
    match reading {
        Ok(json) => Ok(json@),
        Err(why) => Err(why@),
    }
}

/// The name of an event, by its payload.
pub open spec fn event_name(payload: JsonView) -> Seq<char> {
    match text_field(payload, "hook_event_name"@) {
        Some(name) => name,
        None => "unknown"@,
    }
}

/// The payload of a line: what it reads as, or the raw line under a name of its
/// own, since a malformed payload is still an observation.
pub open spec fn payload_view(
    reading: Result<JsonView, Seq<char>>,
    line: Seq<char>,
) -> JsonView {
    match reading {
        Ok(json) => json,
        Err(_) => JsonView::Object(
            seq![
                ("hook_event_name"@, JsonView::Text("unparseable"@)),
                ("raw"@, JsonView::Text(line)),
            ],
        ),
    }
}

/// The event of a line that read so.
pub open spec fn event_view(
    reading: Result<JsonView, Seq<char>>,
    line: Seq<char>,
    at: u64,
) -> HookEventView {
    let payload = payload_view(reading, line);
    HookEventView { name: event_name(payload), payload, at }
}

/// The event of a line that read so.
pub fn event_of(reading: Result<Json, String>, line: &str, at: u64) -> (event: HookEvent)
    ensures
        event@ == event_view(reading_view(reading), line@, at),
        (reading matches Ok(json) ==> flat_numbers(json@)) ==> flat_numbers(event@.payload),
{
    let payload = match reading {
        Ok(json) => json,
        Err(_) => {
            let mut fields: Vec<(String, Json)> = Vec::new();
            fields.push(("hook_event_name".to_owned(), string("unparseable")));
            fields.push(("raw".to_owned(), string(line)));
            assert(fields_view(fields@) =~= payload_view(
                reading_view(reading),
                line@,
            )->Object_0);
            let ghost shown = fields_view(fields@);
            assert(forall|i: int| 0 <= i < shown.len() ==> (#[trigger] shown[i]).1 is Text);
            assert(flat_fields(shown)) by {
                reveal_with_fuel(flat_fields, 2);
                reveal_with_fuel(flat_numbers, 2);
            }
            let raw = Json::Object(fields);
            assert(flat_numbers(raw@));
            raw
        },
    };
    let name = match payload.get_text("hook_event_name") {
        Some(name) => name.to_owned(),
        None => "unknown".to_owned(),
    };
    HookEvent { name, payload, at }
}

/// The event that a payload line carries.
pub fn event_from(payload_line: &str, at: u64) -> (event: HookEvent)
    ensures
        event@ == event_view(json_reading(payload_line@), payload_line@, at),
        flat_numbers(event@.payload),
{
    let reading = read_json(payload_line);
    event_of(reading, payload_line, at)
}

/// The event of what came over one connection. One that closed without sending
/// anything is no event.
pub fn received(raw: &[u8], at: u64) -> (event: Option<HookEvent>)
    ensures
        match event {
            Some(e) => {
                &&& raw@.len() > 0
                &&& e@ == event_view(json_reading(lossy(raw@)), lossy(raw@), at)
                &&& flat_numbers(e@.payload)
            },
            None => raw@.len() == 0,
        },
{
    if raw.len() == 0 {
        return None;
    }
    let line = decode_lossy(raw);
    Some(event_from(line.as_str(), at))
}

/// A malformed payload is an event of its own, and carries the line that came.
pub proof fn law_no_payload_is_dropped(line: Seq<char>, at: u64, why: Seq<char>)
    ensures
        ({
            let event = event_view(Err(why), line, at);
            &&& event.name == "unparseable"@
            &&& text_field(event.payload, "raw"@) == Some(line)
        }),
{
    let fields = payload_view(Err(why), line)->Object_0;
    reveal_strlit("hook_event_name");
    reveal_strlit("raw");
    assert("raw"@.len() != "hook_event_name"@.len());
    assert(field_in(fields, "hook_event_name"@) == Some(JsonView::Text("unparseable"@)));
    reveal_with_fuel(field_in, 3);
    assert(fields.drop_first()[0] == fields[1]);
}

/// Every hook is registered against the command, and the hooks of the tool
/// lifecycle, and no other, with a matcher and a timeout.
pub proof fn law_every_hook_is_registered(command: Seq<char>, i: int)
    requires
        0 <= i < 7,
    ensures
        field(
            JsonView::Object(registrations_view(command)),
            HOOK_EVENTS@[i]@,
        ) == Some(
            entry_view(
                command,
                HOOK_EVENTS@[i]@ == "PreToolUse"@ || HOOK_EVENTS@[i]@ == "PostToolUse"@,
            ),
        ),
        field(settings_view(command), "hooks"@) == Some(
            JsonView::Object(registrations_view(command)),
        ),
{
    reveal_strlit("Notification");
    reveal_strlit("PostToolUse");
    reveal_strlit("PreCompact");
    reveal_strlit("PreToolUse");
    reveal_strlit("SessionEnd");
    reveal_strlit("SessionStart");
    reveal_strlit("Stop");
    assert("PreCompact"@[3] != "PreToolUse"@[3]);
    assert("PreCompact"@[0] != "SessionEnd"@[0]);
    assert("PreToolUse"@[0] != "SessionEnd"@[0]);
    assert("Notification"@[0] != "SessionStart"@[0]);
    reveal_with_fuel(field_in, 8);
}

/// What a forwarder relays: the payload in one line, whatever its layout was.
pub fn forward_line(payload: &str) -> (r: Result<(Json, String), String>)
    ensures
        match (json_reading(payload@), r) {
            (Ok(json), Ok((value, line))) => {
                &&& value@ == json
                &&& line@ == compact(json)
                &&& flat(line@)
            },
            (Err(why), Err(text)) => text@ == "hook-forward: payload is not JSON: "@ + why,
            _ => false,
        },
{
    match read_json(payload) {
        Ok(value) => {
            let line = value.to_text();
            proof {
                law_a_value_is_one_line(value@);
            }
            Ok((value, line))
        },
        Err(why) => {
            let mut text = "hook-forward: payload is not JSON: ".to_owned();
            text.append(why.as_str());
            Err(text)
        },
    }
}

/// What a listener's raw reply reads as.
pub fn read_reply(raw: &str) -> (r: Result<Json, String>)
    ensures
        match (json_reading(trimmed(raw@)), r) {
            (Ok(json), Ok(value)) => value@ == json,
            (Err(why), Err(text)) => text@ == "reply is not JSON: "@ + why,
            _ => false,
        },
{
    match read_json(trim(raw).as_str()) {
        Ok(value) => Ok(value),
        Err(why) => {
            let mut text = "reply is not JSON: ".to_owned();
            text.append(why.as_str());
            Err(text)
        },
    }
}

/// What the forwarder prints for a decision.
pub open spec fn output_view(decision: Seq<char>, reason: Seq<char>) -> JsonView {
    JsonView::Object(
        seq![
            (
                "hookSpecificOutput"@,
                JsonView::Object(
                    seq![
                        ("hookEventName"@, JsonView::Text("PreToolUse"@)),
                        ("permissionDecision"@, JsonView::Text(decision)),
                        ("permissionDecisionReason"@, JsonView::Text(reason)),
                    ],
                ),
            ),
        ],
    )
}

/// What the forwarder prints for a payload and its reply: a decision, for a
/// pending tool call that the reply decides; otherwise nothing.
pub open spec fn forwarded(value: JsonView, reply: JsonView) -> Option<Seq<char>> {
    if event_name(value) != "PreToolUse"@ {
        None
    } else {
        match text_field(reply, "decision"@) {
            Some(decision) => if decision == "allow"@ || decision == "deny"@ || decision == "ask"@ {
                Some(
                    compact(
                        output_view(
                            decision,
                            match text_field(reply, "reason"@) {
                                Some(reason) => reason,
                                None => "interactive-probe external approver"@,
                            },
                        ),
                    ),
                )
            } else {
                None
            },
            None => None,
        }
    }
}

/// What the forwarder prints for a payload and its reply.
pub fn forward_output(value: &Json, reply: &Json) -> (printed: Option<String>)
    ensures
        match printed {
            Some(text) => forwarded(value@, reply@) == Some(text@),
            None => forwarded(value@, reply@) is None,
        },
{
    let event = match value.get_text("hook_event_name") {
        Some(name) => name,
        None => "unknown",
    };
    if !same_text(event, "PreToolUse") {
        return None;
    }
    let decision = match reply.get_text("decision") {
        Some(decision) => decision,
        None => {
            return None;
        },
    };
    if !(same_text(decision, "allow") || same_text(decision, "deny") || same_text(
        decision,
        "ask",
    )) {
        return None;
    }
    let reason = match reply.get_text("reason") {
        Some(reason) => reason,
        None => "interactive-probe external approver",
    };
    let mut inner: Vec<(String, Json)> = Vec::new();
    inner.push(("hookEventName".to_owned(), string("PreToolUse")));
    inner.push(("permissionDecision".to_owned(), string(decision)));
    inner.push(("permissionDecisionReason".to_owned(), string(reason)));
    let ghost expected = output_view(decision@, reason@)->Object_0;
    assert(fields_view(inner@) =~= expected[0].1->Object_0);
    let output = Json::Object(inner);
    let mut fields: Vec<(String, Json)> = Vec::new();
    fields.push(("hookSpecificOutput".to_owned(), output));
    assert(fields_view(fields@) =~= expected);
    Some(Json::Object(fields).to_text())
}

/// Only a pending tool call is ever decided, and only as the listener replied:
/// no opinion prints nothing, so the CLI's own flow applies.
pub proof fn law_only_a_decided_tool_call_is_answered(value: JsonView, decision: Decision)
    ensures
        forwarded(value, reply_view(decision)) is Some <==> event_name(value) == "PreToolUse"@
            && decision != Decision::NoOpinion,
        forwarded(value, reply_view(decision)) matches Some(text) ==> text == compact(
            output_view(
                decision.word(),
                "interactive-probe external approver: "@ + decision.word(),
            ),
        ),
{
    let fields = reply_view(decision)->Object_0;
    reveal_strlit("decision");
    reveal_strlit("reason");
    reveal_strlit("none");
    reveal_strlit("allow");
    reveal_strlit("deny");
    reveal_strlit("ask");
    assert("none"@[0] != "deny"@[0]);
    assert("decision"@.len() != "reason"@.len());
    assert(fields.drop_first()[0] == fields[1]);
    reveal_with_fuel(field_in, 3);
}

/// Whatever came back, nothing but a decision on a pending tool call is printed.
pub proof fn law_nothing_but_a_decision_is_printed(value: JsonView, reply: JsonView)
    ensures
        forwarded(value, reply) is Some ==> event_name(value) == "PreToolUse"@ && (text_field(
            reply,
            "decision"@,
        ) matches Some(word) && (word == "allow"@ || word == "deny"@ || word == "ask"@)),
{
}

/// How long a forwarder waits for a pipe whose every instance is busy.
pub const PIPE_BUSY_LIMIT: u64 = 10_000_000_000;

/// How long it waits between two tries.
pub const PIPE_RETRY: u64 = 50_000_000;

/// Why a pipe could not be opened.
#[derive(Debug)]
pub enum PipeFault {
    /// Every instance is serving another client.
    Busy,
    Failed { error: String },
}

/// What a try to open a pipe comes to.
#[derive(Debug)]
pub enum PipeStep {
    Retry,
    Fail(String),
}

/// Decide a failed try to open a pipe: a busy one is tried again, for a while.
pub fn pipe_step(fault: &PipeFault, waited_ns: u64) -> (s: PipeStep)
    ensures
        match s {
            PipeStep::Retry => fault is Busy && waited_ns < PIPE_BUSY_LIMIT,
            PipeStep::Fail(text) => match *fault {
                PipeFault::Busy => waited_ns >= PIPE_BUSY_LIMIT && text@ == "pipe busy for 10s"@,
                PipeFault::Failed { error } => text@ == "connect: "@ + error@,
            },
        },
{
    match fault {
        PipeFault::Busy => {
            if waited_ns >= PIPE_BUSY_LIMIT {
                PipeStep::Fail("pipe busy for 10s".to_owned())
            } else {
                PipeStep::Retry
            }
        },
        PipeFault::Failed { error } => {
            let mut text = "connect: ".to_owned();
            text.append(error.as_str());
            PipeStep::Fail(text)
        },
    }
}

/// The registration of a hook runs the command, and where the CLI waits for its
/// reply it matches every tool and waits for half a minute.
pub proof fn law_a_registration_runs_the_command(command: Seq<char>, tool: bool)
    ensures
        entry_view(command, tool) matches JsonView::List(entries) && entries.len() == 1 && field(
            entries[0],
            "hooks"@,
        ) == Some(JsonView::List(seq![command_view(command, tool)])) && field(
            entries[0],
            "matcher"@,
        ) == if tool {
            Some(JsonView::Text(""@))
        } else {
            None
        },
        field(command_view(command, tool), "command"@) == Some(JsonView::Text(command)),
        field(command_view(command, tool), "type"@) == Some(JsonView::Text("command"@)),
        field(command_view(command, tool), "timeout"@) == if tool {
            Some(JsonView::Number(decimal(30), Some(30u64)))
        } else {
            None
        },
{
    lemma_names_differ();
    reveal_with_fuel(field_in, 4);
    let entry = entry_view(command, tool)->List_0[0];
    let fields = entry->Object_0;
    let parts = command_view(command, tool)->Object_0;
    assert(fields[0].0 == "hooks"@);
    assert(parts[0].0 == "command"@);
}

proof fn lemma_names_differ()
    ensures
        "hooks"@ != "matcher"@,
        "command"@ != "timeout"@,
        "command"@ != "type"@,
        "timeout"@ != "type"@,
        "hookEventName"@ != "permissionDecision"@,
        "hookEventName"@ != "permissionDecisionReason"@,
        "permissionDecision"@ != "permissionDecisionReason"@,
        "decision"@ != "reason"@,
{
    reveal_strlit("hooks");
    reveal_strlit("matcher");
    reveal_strlit("command");
    reveal_strlit("timeout");
    reveal_strlit("type");
    reveal_strlit("hookEventName");
    reveal_strlit("permissionDecision");
    reveal_strlit("permissionDecisionReason");
    reveal_strlit("decision");
    reveal_strlit("reason");
    assert("hooks"@.len() != "matcher"@.len());
    assert("command"@[0] != "timeout"@[0]);
    assert("command"@.len() != "type"@.len());
    assert("timeout"@.len() != "type"@.len());
    assert("decision"@.len() != "reason"@.len());
    assert("hookEventName"@.len() != "permissionDecision"@.len());
    assert("hookEventName"@.len() != "permissionDecisionReason"@.len());
    assert("permissionDecision"@.len() != "permissionDecisionReason"@.len());
}

/// What is printed for a decision answers the pending tool call with the decision
/// and the reason that came.
pub proof fn law_an_answer_carries_the_decision_and_its_reason(
    decision: Seq<char>,
    reason: Seq<char>,
)
    ensures
        field(output_view(decision, reason), "hookSpecificOutput"@) matches Some(answer) && field(
            answer,
            "hookEventName"@,
        ) == Some(JsonView::Text("PreToolUse"@)) && field(answer, "permissionDecision"@) == Some(
            JsonView::Text(decision),
        ) && field(answer, "permissionDecisionReason"@) == Some(JsonView::Text(reason)),
{
    lemma_names_differ();
    reveal_with_fuel(field_in, 4);
}

/// A payload's event has the name that the payload says, and none is unknown.
pub proof fn law_an_event_is_named_by_its_payload(
    reading: Result<JsonView, Seq<char>>,
    line: Seq<char>,
    at: u64,
)
    ensures
        event_view(reading, line, at).at == at,
        reading matches Ok(json) ==> event_view(reading, line, at).payload == json,
        reading matches Ok(json) ==> match text_field(json, "hook_event_name"@) {
            Some(name) => event_view(reading, line, at).name == name,
            None => event_view(reading, line, at).name == "unknown"@,
        },
{
}

/// A decided reply to a pending tool call is answered in its own words, and with
/// words of the probe's where it gives no reason.
pub proof fn law_a_reply_is_answered_in_its_words(value: JsonView, reply: JsonView, word: Seq<char>)
    requires
        event_name(value) == "PreToolUse"@,
        text_field(reply, "decision"@) == Some(word),
        word == "allow"@ || word == "deny"@ || word == "ask"@,
    ensures
        text_field(reply, "reason"@) matches Some(reason) ==> forwarded(value, reply) == Some(
            compact(output_view(word, reason)),
        ),
        text_field(reply, "reason"@) is None ==> forwarded(value, reply) == Some(
            compact(output_view(word, "interactive-probe external approver"@)),
        ),
{
}

/// A pipe is tried again exactly when it was busy and ten seconds are not over.
pub proof fn law_only_a_busy_pipe_is_tried_again(fault: PipeFault, waited_ns: u64, s: PipeStep)
    requires
        call_ensures(pipe_step, (&fault, waited_ns), s),
    ensures
        s is Retry <==> fault is Busy && waited_ns < 10_000_000_000,
        fault matches PipeFault::Failed { error } ==> s is Fail && s->Fail_0@ == "connect: "@
            + error@,
{
}

} // verus!
