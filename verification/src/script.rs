//! Record scripts: what a capture session does, step by step.
//!
//! A script is strict JSON. Each step carries exactly one kind key, unknown
//! fields are rejections, and a step that needs the hook channel is rejected in
//! a script for a CLI that has none.
use vstd::prelude::*;
use vstd::string::*;

use crate::hooks::{decision_named, decision_of, Decision};
use crate::json::{
    field_in, fields_view, find_field, json_reading, list_view, read_json, Json, JsonView,
};
use crate::report::{optional_text, texts};
use crate::text::{
    any_control, chars_of, code_of, decimal, has_control, number_result, push_usize, replace,
    replaced, same_text, text_result,
};

verus! {

/// What a step does.
#[derive(Debug)]
pub enum StepKind {
    /// Type text, settle, then Enter.
    TypeLine { text: String },
    /// One named keystroke, no Enter.
    Press { key: String, bytes: Vec<u8> },
    /// Wait for the output to go quiet.
    WaitQuiet { quiet_ms: u64, timeout_ms: u64 },
    /// Wait until the visible output contains a marker.
    WaitText { marker: String, timeout_ms: u64 },
    /// Wait for a named hook to arrive.
    WaitHook { hook: String, timeout_ms: u64 },
    /// Arm the listener's answer to the next tool call.
    SetDecision { decision: Decision },
    /// A fixed settle.
    Pause { ms: u64 },
}

/// A step kind's contents.
pub enum KindView {
    TypeLine { text: Seq<char> },
    Press { key: Seq<char>, bytes: Seq<u8> },
    WaitQuiet { quiet_ms: u64, timeout_ms: u64 },
    WaitText { marker: Seq<char>, timeout_ms: u64 },
    WaitHook { hook: Seq<char>, timeout_ms: u64 },
    SetDecision { decision: Decision },
    Pause { ms: u64 },
}

impl View for StepKind {
    type V = KindView;

    open spec fn view(&self) -> KindView {
        match *self {
            StepKind::TypeLine { text } => KindView::TypeLine { text: text@ },
            StepKind::Press { key, bytes } => KindView::Press { key: key@, bytes: bytes@ },
            StepKind::WaitQuiet { quiet_ms, timeout_ms } => KindView::WaitQuiet {
                quiet_ms,
                timeout_ms,
            },
            StepKind::WaitText { marker, timeout_ms } => KindView::WaitText {
                marker: marker@,
                timeout_ms,
            },
            StepKind::WaitHook { hook, timeout_ms } => KindView::WaitHook {
                hook: hook@,
                timeout_ms,
            },
            StepKind::SetDecision { decision } => KindView::SetDecision { decision },
            StepKind::Pause { ms } => KindView::Pause { ms },
        }
    }
}

/// A step, with the annotation that its record carries.
#[derive(Debug)]
pub struct DriverStep {
    pub kind: StepKind,
    pub label: Option<String>,
}

/// A step's contents.
pub struct StepView {
    pub kind: KindView,
    pub label: Option<Seq<char>>,
}

impl View for DriverStep {
    type V = StepView;

    open spec fn view(&self) -> StepView {
        StepView { kind: self.kind@, label: optional_text(self.label) }
    }
}

/// A scripted session.
#[derive(Debug)]
pub struct RecordScript {
    pub name: String,
    pub description: String,
    /// The CLI that the scenario records. The live CLI's name selects the full
    /// launch rig; any other is hosted through the generic profile.
    pub cli: String,
    pub args: Vec<String>,
    pub steps: Vec<DriverStep>,
}

/// A script's contents.
pub struct ScriptView {
    pub name: Seq<char>,
    pub description: Seq<char>,
    pub cli: Seq<char>,
    pub args: Seq<Seq<char>>,
    pub steps: Seq<StepView>,
}

/// The contents of a list of steps.
pub open spec fn step_views(steps: Seq<DriverStep>) -> Seq<StepView> {
    steps.map_values(|s: DriverStep| s@)
}

impl View for RecordScript {
    type V = ScriptView;

    open spec fn view(&self) -> ScriptView {
        ScriptView {
            name: self.name@,
            description: self.description@,
            cli: self.cli@,
            args: texts(self.args@),
            steps: step_views(self.steps@),
        }
    }
}

impl RecordScript {
    /// Whether the script rides the full launch rig, which hosts the CLI `live`.
    pub fn is_claude(&self, live: &str) -> (yes: bool)
        ensures
            yes == (self.cli@ == live@),
    {
        same_text(self.cli.as_str(), live)
    }
}

/// The key that says what a step does.
#[derive(Clone, Copy, PartialEq, Eq, Debug, Structural)]
pub enum StepKey {
    TypeLine,
    Press,
    WaitQuiet,
    WaitText,
    WaitHook,
    SetDecision,
    Pause,
}

impl StepKey {
    /// The key as a script has it.
    pub open spec fn key(self) -> Seq<char> {
        match self {
            StepKey::TypeLine => "type_line"@,
            StepKey::Press => "press"@,
            StepKey::WaitQuiet => "wait_quiet_ms"@,
            StepKey::WaitText => "wait_text"@,
            StepKey::WaitHook => "wait_hook"@,
            StepKey::SetDecision => "set_decision"@,
            StepKey::Pause => "pause_ms"@,
        }
    }

    /// The key as a script has it.
    pub fn as_str(self) -> (key: &'static str)
        ensures
            key@ == self.key(),
    {
        match self {
            StepKey::TypeLine => "type_line",
            StepKey::Press => "press",
            StepKey::WaitQuiet => "wait_quiet_ms",
            StepKey::WaitText => "wait_text",
            StepKey::WaitHook => "wait_hook",
            StepKey::SetDecision => "set_decision",
            StepKey::Pause => "pause_ms",
        }
    }

    /// Whether the step carries a timeout.
    pub open spec fn timed(self) -> bool {
        self == StepKey::WaitQuiet || self == StepKey::WaitText || self == StepKey::WaitHook
    }

    /// Whether the step needs the hook channel.
    pub open spec fn hooked(self) -> bool {
        self == StepKey::WaitHook || self == StepKey::SetDecision
    }

    /// Whether a step of this kind may carry a field.
    pub open spec fn allows(self, field: Seq<char>) -> bool {
        field == self.key() || field == "label"@ || (self.timed() && field == "timeout_ms"@)
    }
}

/// The kind keys, as a rejection lists them.
pub open spec fn kinds_text() -> Seq<char> {
    "\"type_line\", \"press\", \"wait_quiet_ms\", \"wait_text\", \"wait_hook\", \"set_decision\", \"pause_ms\""@
}

/// The names of the keys, as a rejection lists them.
pub open spec fn keys_text() -> Seq<char> {
    "\"enter\", \"tab\", \"esc\", \"space\", \"backspace\", \"up\", \"down\", \"right\", \"left\", \"ctrl-c\""@
}

/// The kind keys, as a rejection lists them.
fn name_kinds() -> (text: &'static str)
    ensures
        text@ == kinds_text(),
{
    "\"type_line\", \"press\", \"wait_quiet_ms\", \"wait_text\", \"wait_hook\", \"set_decision\", \"pause_ms\""
}

/// What a key sends. Arrows are the sequences a terminal sends; Enter is a
/// carriage return; the control keys are their control bytes; any other key is
/// one printable ASCII character.
pub open spec fn key_sends(key: Seq<char>) -> Option<Seq<u8>> {
    if key == "enter"@ {
        Some(seq![0x0d])
    } else if key == "tab"@ {
        Some(seq![0x09])
    } else if key == "esc"@ {
        Some(seq![0x1b])
    } else if key == "space"@ {
        Some(seq![0x20])
    } else if key == "backspace"@ {
        Some(seq![0x7f])
    } else if key == "up"@ {
        Some(seq![0x1b, 0x5b, 0x41])
    } else if key == "down"@ {
        Some(seq![0x1b, 0x5b, 0x42])
    } else if key == "right"@ {
        Some(seq![0x1b, 0x5b, 0x43])
    } else if key == "left"@ {
        Some(seq![0x1b, 0x5b, 0x44])
    } else if key == "ctrl-c"@ {
        Some(seq![0x03])
    } else if key.len() == 1 && 0x21 <= key[0] as int <= 0x7e {
        Some(seq![key[0] as u8])
    } else {
        None
    }
}

/// What a key sends.
pub fn key_bytes(key: &str) -> (bytes: Option<Vec<u8>>)
    ensures
        match bytes {
            Some(b) => key_sends(key@) == Some(b@),
            None => key_sends(key@) is None,
        },
{
    let bytes: Vec<u8> = if same_text(key, "enter") {
        vec![0x0d]
    } else if same_text(key, "tab") {
        vec![0x09]
    } else if same_text(key, "esc") {
        vec![0x1b]
    } else if same_text(key, "space") {
        vec![0x20]
    } else if same_text(key, "backspace") {
        vec![0x7f]
    } else if same_text(key, "up") {
        vec![0x1b, 0x5b, 0x41]
    } else if same_text(key, "down") {
        vec![0x1b, 0x5b, 0x42]
    } else if same_text(key, "right") {
        vec![0x1b, 0x5b, 0x43]
    } else if same_text(key, "left") {
        vec![0x1b, 0x5b, 0x44]
    } else if same_text(key, "ctrl-c") {
        vec![0x03]
    } else {
        let chars = chars_of(key);
        if chars.len() != 1 {
            return None;
        }
        let code: u32 = code_of(chars[0]);
        if code < 0x21 || code > 0x7e {
            return None;
        }
        vec![code as u8]
    };
    assert(bytes@ =~= key_sends(key@)->Some_0);
    Some(bytes)
}

/// Whether a character may stand in a name.
pub open spec fn is_kebab_char(c: char) -> bool {
    'a' <= c <= 'z' || '0' <= c <= '9' || c == '-'
}

/// Whether a text is kebab case: lower-case letters, digits and hyphens,
/// starting and ending with no hyphen.
pub open spec fn kebab(s: Seq<char>) -> bool {
    &&& s.len() > 0
    &&& forall|i: int| 0 <= i < s.len() ==> is_kebab_char(#[trigger] s[i])
    &&& s[0] != '-'
    &&& s.last() != '-'
}

/// Whether a text is kebab case.
pub fn is_kebab(value: &str) -> (yes: bool)
    ensures
        yes == kebab(value@),
{
    let chars = chars_of(value);
    if chars.len() == 0 || chars[0] == '-' || chars[chars.len() - 1] == '-' {
        return false;
    }
    let mut i: usize = 0;
    while i < chars.len()
        invariant
            chars@ == value@,
            i <= chars@.len(),
            forall|j: int| 0 <= j < i ==> is_kebab_char(#[trigger] chars@[j]),
        decreases chars@.len() - i,
    {
        let c: char = chars[i];
        if !(('a' <= c && c <= 'z') || ('0' <= c && c <= '9') || c == '-') {
            assert(!is_kebab_char(value@[i as int]));
            return false;
        }
        i += 1;
    }
    true
}

/// A script's fields.
pub type Fields = Seq<(Seq<char>, JsonView)>;

/// A required field in kebab case: its value, or why it is rejected.
pub open spec fn kebab_reading(root: Fields, name: Seq<char>) -> Result<Seq<char>, Seq<char>> {
    match field_in(root, name) {
        Some(JsonView::Text(value)) => if kebab(value) {
            Ok(value)
        } else {
            Err(
                "\""@ + name
                    + "\" must be kebab-case ([a-z0-9-], starting and ending alphanumeric): \""@
                    + value + "\""@,
            )
        },
        Some(_) => Err("\""@ + name + "\" must be a string"@),
        None => Err("missing \""@ + name + "\""@),
    }
}

fn kebab_field(root: &Vec<(String, Json)>, name: &str) -> (r: Result<String, String>)
    ensures
        text_result(r) == kebab_reading(fields_view(root@), name@),
{
    match find_field(root, name) {
        Some(Json::Text(value)) => {
            if is_kebab(value.as_str()) {
                Ok(value.clone())
            } else {
                let mut text = "\"".to_owned();
                text.append(name);
                text.append(
                    "\" must be kebab-case ([a-z0-9-], starting and ending alphanumeric): \"",
                );
                text.append(value.as_str());
                text.append("\"");
                Err(text)
            }
        },
        Some(_) => {
            let mut text = "\"".to_owned();
            text.append(name);
            text.append("\" must be a string");
            Err(text)
        },
        None => {
            let mut text = "missing \"".to_owned();
            text.append(name);
            text.append("\"");
            Err(text)
        },
    }
}

/// What a rejection of a step begins with.
pub open spec fn step_lead(index: nat, kind: StepKey) -> Seq<char> {
    "step "@ + decimal(index) + " ("@ + kind.key() + "): "@
}

fn step_text(index: usize, kind: StepKey) -> (text: String)
    ensures
        text@ == step_lead(index as nat, kind),
{
    let mut text = "step ".to_owned();
    push_usize(&mut text, index);
    text.append(" (");
    text.append(kind.as_str());
    text.append("): ");
    text
}

/// A step's field that must be a text: its value, or why it is rejected.
pub open spec fn string_reading(index: nat, kind: StepKey, fields: Fields, name: Seq<char>) -> Result<
    Seq<char>,
    Seq<char>,
> {
    let fault = step_lead(index, kind) + "\""@ + name + "\" must be a non-empty string"@;
    match field_in(fields, name) {
        Some(JsonView::Text(value)) => if value.len() > 0 {
            Ok(value)
        } else {
            Err(fault)
        },
        _ => Err(fault),
    }
}

fn string_field(index: usize, kind: StepKey, fields: &Vec<(String, Json)>, name: &str) -> (r:
    Result<String, String>)
    ensures
        text_result(r) == string_reading(index as nat, kind, fields_view(fields@), name@),
{
    match find_field(fields, name) {
        Some(Json::Text(value)) => {
            if chars_of(value.as_str()).len() > 0 {
                return Ok(value.clone());
            }
        },
        _ => {},
    }
    let mut text = step_text(index, kind);
    text.append("\"");
    text.append(name);
    text.append("\" must be a non-empty string");
    Err(text)
}

/// A step's field that must be a positive number: its value, or why it is
/// rejected.
pub open spec fn positive_reading(
    index: nat,
    kind: StepKey,
    fields: Fields,
    name: Seq<char>,
) -> Result<u64, Seq<char>> {
    let fault = step_lead(index, kind) + "\""@ + name
        + "\" must be a positive integer (milliseconds)"@;
    match field_in(fields, name) {
        Some(JsonView::Number(_, Some(value))) => if value > 0 {
            Ok(value)
        } else {
            Err(fault)
        },
        _ => Err(fault),
    }
}

fn positive_field(index: usize, kind: StepKey, fields: &Vec<(String, Json)>, name: &str) -> (r:
    Result<u64, String>)
    ensures
        number_result(r) == positive_reading(index as nat, kind, fields_view(fields@), name@),
{
    match find_field(fields, name) {
        Some(Json::Number(_, Some(value))) => {
            if *value > 0 {
                return Ok(*value);
            }
        },
        _ => {},
    }
    let mut text = step_text(index, kind);
    text.append("\"");
    text.append(name);
    text.append("\" must be a positive integer (milliseconds)");
    Err(text)
}

/// The first field that a step of that kind may not carry.
pub open spec fn first_unknown(kind: StepKey, fields: Fields) -> Option<Seq<char>>
    decreases fields.len(),
{
    if fields.len() == 0 {
        None
    } else if !kind.allows(fields[0].0) {
        Some(fields[0].0)
    } else {
        first_unknown(kind, fields.drop_first())
    }
}

/// Why a step is rejected for a field that it carries.
pub open spec fn unknown_fault(index: nat, kind: StepKey, name: Seq<char>) -> Seq<char> {
    step_lead(index, kind) + "unknown field \""@ + name + "\""@
}

fn reject_unknown(index: usize, kind: StepKey, fields: &Vec<(String, Json)>) -> (r: Result<
    (),
    String,
>)
    ensures
        match r {
            Ok(()) => first_unknown(kind, fields_view(fields@)) is None,
            Err(text) => first_unknown(kind, fields_view(fields@)) matches Some(name) && text@
                == unknown_fault(index as nat, kind, name),
        },
{
    let ghost all = fields_view(fields@);
    let timed = kind == StepKey::WaitQuiet || kind == StepKey::WaitText || kind
        == StepKey::WaitHook;
    let mut i: usize = 0;
    assert(all.skip(0) =~= all);
    while i < fields.len()
        invariant
            all == fields_view(fields@),
            timed == kind.timed(),
            i <= fields@.len(),
            first_unknown(kind, all) == first_unknown(kind, all.skip(i as int)),
        decreases fields@.len() - i,
    {
        assert(all.skip(i as int).drop_first() =~= all.skip(i + 1));
        let name = fields[i].0.as_str();
        let allowed = same_text(name, kind.as_str()) || same_text(name, "label") || (timed
            && same_text(name, "timeout_ms"));
        if !allowed {
            let mut text = step_text(index, kind);
            text.append("unknown field \"");
            text.append(name);
            text.append("\"");
            return Err(text);
        }
        i += 1;
    }
    Ok(())
}

/// Names in quotes, with commas between.
pub open spec fn listed(names: Seq<Seq<char>>) -> Seq<char>
    decreases names.len(),
{
    if names.len() == 0 {
        Seq::empty()
    } else if names.len() == 1 {
        "\""@ + names[0] + "\""@
    } else {
        listed(names.drop_last()) + ", \""@ + names.last() + "\""@
    }
}

/// How a rejection names fields.
pub open spec fn named(names: Seq<Seq<char>>) -> Seq<char> {
    if names.len() == 0 {
        "no fields"@
    } else {
        "field(s) "@ + listed(names)
    }
}

/// How a rejection names fields.
pub fn name_fields(names: &Vec<String>) -> (text: String)
    ensures
        text@ == named(texts(names@)),
{
    let ghost all = texts(names@);
    if names.len() == 0 {
        return "no fields".to_owned();
    }
    let mut list = "\"".to_owned();
    list.append(names[0].as_str());
    list.append("\"");
    let mut i: usize = 1;
    assert(all.take(1)[0] == names@[0]@);
    while i < names.len()
        invariant
            all == texts(names@),
            1 <= i <= names@.len(),
            list@ == listed(all.take(i as int)),
        decreases names@.len() - i,
    {
        assert(all.take(i + 1).drop_last() =~= all.take(i as int));
        list.append(", \"");
        list.append(names[i].as_str());
        list.append("\"");
        i += 1;
    }
    assert(all.take(i as int) =~= all);
    let mut text = "field(s) ".to_owned();
    text.append(list.as_str());
    text
}

/// The kind, where a step carries its key.
pub open spec fn kept(fields: Fields, kind: StepKey) -> Seq<StepKey> {
    if field_in(fields, kind.key()) is Some {
        seq![kind]
    } else {
        Seq::empty()
    }
}

/// The kinds whose keys a step carries, in the order in which they are listed.
pub open spec fn found_kinds(fields: Fields) -> Seq<StepKey> {
    kept(fields, StepKey::TypeLine) + kept(fields, StepKey::Press) + kept(
        fields,
        StepKey::WaitQuiet,
    ) + kept(fields, StepKey::WaitText) + kept(fields, StepKey::WaitHook) + kept(
        fields,
        StepKey::SetDecision,
    ) + kept(fields, StepKey::Pause)
}

fn keep(found: &mut Vec<StepKey>, fields: &Vec<(String, Json)>, kind: StepKey)
    ensures
        final(found)@ == old(found)@ + kept(fields_view(fields@), kind),
{
    match find_field(fields, kind.as_str()) {
        Some(_) => {
            found.push(kind);
            assert(found@ =~= old(found)@ + seq![kind]);
        },
        None => {
            assert(found@ =~= old(found)@ + Seq::<StepKey>::empty());
        },
    }
}

/// The kinds whose keys a step carries.
fn kinds_of(fields: &Vec<(String, Json)>) -> (found: Vec<StepKey>)
    ensures
        found@ == found_kinds(fields_view(fields@)),
{
    let mut found: Vec<StepKey> = Vec::new();
    keep(&mut found, fields, StepKey::TypeLine);
    assert(found@ =~= kept(fields_view(fields@), StepKey::TypeLine));
    keep(&mut found, fields, StepKey::Press);
    keep(&mut found, fields, StepKey::WaitQuiet);
    keep(&mut found, fields, StepKey::WaitText);
    keep(&mut found, fields, StepKey::WaitHook);
    keep(&mut found, fields, StepKey::SetDecision);
    keep(&mut found, fields, StepKey::Pause);
    found
}

/// The keys of a list of fields.
pub open spec fn names_of(fields: Fields) -> Seq<Seq<char>> {
    fields.map_values(|f: (Seq<char>, JsonView)| f.0)
}

/// The keys of a list of kinds.
pub open spec fn keys_of(kinds: Seq<StepKey>) -> Seq<Seq<char>> {
    kinds.map_values(|k: StepKey| k.key())
}

/// A step's label: its text, or why it is rejected.
pub open spec fn label_reading(index: nat, kind: StepKey, fields: Fields) -> Result<
    Option<Seq<char>>,
    Seq<char>,
> {
    match field_in(fields, "label"@) {
        None => Ok(None),
        Some(JsonView::Text(label)) => if label.len() > 0 {
            Ok(Some(label))
        } else {
            Err(step_lead(index, kind) + "\"label\" must be a non-empty string"@)
        },
        Some(_) => Err(step_lead(index, kind) + "\"label\" must be a non-empty string"@),
    }
}

/// What a step of a kind does: its contents, or why it is rejected.
pub open spec fn kind_reading(index: nat, kind: StepKey, fields: Fields) -> Result<
    KindView,
    Seq<char>,
> {
    match first_unknown(kind, fields) {
        Some(name) => Err(unknown_fault(index, kind, name)),
        None => match kind {
            StepKey::TypeLine => match string_reading(index, kind, fields, "type_line"@) {
                Ok(text) => Ok(KindView::TypeLine { text }),
                Err(why) => Err(why),
            },
            StepKey::Press => match string_reading(index, kind, fields, "press"@) {
                Ok(key) => match key_sends(key) {
                    Some(bytes) => Ok(KindView::Press { key, bytes }),
                    None => Err(
                        step_lead(index, kind) + "unknown key \""@ + key
                            + "\" \u{2014} named keys are "@ + keys_text()
                            + ", or one printable ASCII character"@,
                    ),
                },
                Err(why) => Err(why),
            },
            StepKey::WaitQuiet => match positive_reading(index, kind, fields, "wait_quiet_ms"@) {
                Ok(quiet_ms) => match positive_reading(index, kind, fields, "timeout_ms"@) {
                    Ok(timeout_ms) => Ok(KindView::WaitQuiet { quiet_ms, timeout_ms }),
                    Err(why) => Err(why),
                },
                Err(why) => Err(why),
            },
            StepKey::WaitText => match string_reading(index, kind, fields, "wait_text"@) {
                Ok(marker) => match positive_reading(index, kind, fields, "timeout_ms"@) {
                    Ok(timeout_ms) => Ok(KindView::WaitText { marker, timeout_ms }),
                    Err(why) => Err(why),
                },
                Err(why) => Err(why),
            },
            StepKey::WaitHook => match string_reading(index, kind, fields, "wait_hook"@) {
                Ok(hook) => match positive_reading(index, kind, fields, "timeout_ms"@) {
                    Ok(timeout_ms) => Ok(KindView::WaitHook { hook, timeout_ms }),
                    Err(why) => Err(why),
                },
                Err(why) => Err(why),
            },
            StepKey::SetDecision => match string_reading(index, kind, fields, "set_decision"@) {
                Ok(word) => match decision_named(word) {
                    Some(decision) => Ok(KindView::SetDecision { decision }),
                    None => Err(
                        step_lead(index, kind) + "unknown decision \""@ + word
                            + "\" \u{2014} one of \"allow\", \"deny\", \"ask\", \"none\""@,
                    ),
                },
                Err(why) => Err(why),
            },
            StepKey::Pause => match positive_reading(index, kind, fields, "pause_ms"@) {
                Ok(ms) => Ok(KindView::Pause { ms }),
                Err(why) => Err(why),
            },
        },
    }
}

/// A result's contents.
pub open spec fn kind_result(r: Result<StepKind, String>) -> Result<KindView, Seq<char>> {
    match r {
        Ok(kind) => Ok(kind@),
        Err(why) => Err(why@),
    }
}

fn parse_kind(index: usize, kind: StepKey, fields: &Vec<(String, Json)>) -> (r: Result<
    StepKind,
    String,
>)
    ensures
        kind_result(r) == kind_reading(index as nat, kind, fields_view(fields@)),
{
    match reject_unknown(index, kind, fields) {
        Ok(()) => {},
        Err(why) => {
            return Err(why);
        },
    }
    match kind {
        StepKey::TypeLine => match string_field(index, kind, fields, "type_line") {
            Ok(text) => Ok(StepKind::TypeLine { text }),
            Err(why) => Err(why),
        },
        StepKey::Press => match string_field(index, kind, fields, "press") {
            Ok(key) => match key_bytes(key.as_str()) {
                Some(bytes) => Ok(StepKind::Press { key, bytes }),
                None => {
                    let mut text = step_text(index, kind);
                    text.append("unknown key \"");
                    text.append(key.as_str());
                    text.append("\" \u{2014} named keys are ");
                    text.append(
                        "\"enter\", \"tab\", \"esc\", \"space\", \"backspace\", \"up\", \"down\", \"right\", \"left\", \"ctrl-c\"",
                    );
                    text.append(", or one printable ASCII character");
                    Err(text)
                },
            },
            Err(why) => Err(why),
        },
        StepKey::WaitQuiet => match positive_field(index, kind, fields, "wait_quiet_ms") {
            Ok(quiet_ms) => match positive_field(index, kind, fields, "timeout_ms") {
                Ok(timeout_ms) => Ok(StepKind::WaitQuiet { quiet_ms, timeout_ms }),
                Err(why) => Err(why),
            },
            Err(why) => Err(why),
        },
        StepKey::WaitText => match string_field(index, kind, fields, "wait_text") {
            Ok(marker) => match positive_field(index, kind, fields, "timeout_ms") {
                Ok(timeout_ms) => Ok(StepKind::WaitText { marker, timeout_ms }),
                Err(why) => Err(why),
            },
            Err(why) => Err(why),
        },
        StepKey::WaitHook => match string_field(index, kind, fields, "wait_hook") {
            Ok(hook) => match positive_field(index, kind, fields, "timeout_ms") {
                Ok(timeout_ms) => Ok(StepKind::WaitHook { hook, timeout_ms }),
                Err(why) => Err(why),
            },
            Err(why) => Err(why),
        },
        StepKey::SetDecision => match string_field(index, kind, fields, "set_decision") {
            Ok(word) => match decision_of(word.as_str()) {
                Some(decision) => Ok(StepKind::SetDecision { decision }),
                None => {
                    let mut text = step_text(index, kind);
                    text.append("unknown decision \"");
                    text.append(word.as_str());
                    text.append("\" \u{2014} one of \"allow\", \"deny\", \"ask\", \"none\"");
                    Err(text)
                },
            },
            Err(why) => Err(why),
        },
        StepKey::Pause => match positive_field(index, kind, fields, "pause_ms") {
            Ok(ms) => Ok(StepKind::Pause { ms }),
            Err(why) => Err(why),
        },
    }
}

/// A step: its contents, or why it is rejected.
pub open spec fn step_reading(index: nat, step: JsonView, is_claude: bool, live: Seq<char>) -> Result<
    StepView,
    Seq<char>,
> {
    match step {
        JsonView::Object(fields) => {
            let found = found_kinds(fields);
            if found.len() == 0 {
                Err(
                    "step "@ + decimal(index) + ": unknown step kind \u{2014} found "@ + named(
                        names_of(fields),
                    ) + "; a step carries exactly one of "@ + kinds_text(),
                )
            } else if found.len() > 1 {
                Err(
                    "step "@ + decimal(index) + ": ambiguous step \u{2014} carries "@ + named(
                        keys_of(found),
                    ) + "; a step carries exactly one of "@ + kinds_text(),
                )
            } else if !is_claude && found[0].hooked() {
                Err(
                    "step "@ + decimal(index) + ": \""@ + found[0].key()
                        + "\" needs the "@ + live + " hook channel, which this CLI does not provide"@,
                )
            } else {
                match label_reading(index, found[0], fields) {
                    Ok(label) => match kind_reading(index, found[0], fields) {
                        Ok(kind) => Ok(StepView { kind, label }),
                        Err(why) => Err(why),
                    },
                    Err(why) => Err(why),
                }
            }
        },
        _ => Err("step "@ + decimal(index) + ": must be a JSON object"@),
    }
}

/// A result's contents.
pub open spec fn step_result(r: Result<DriverStep, String>) -> Result<StepView, Seq<char>> {
    match r {
        Ok(step) => Ok(step@),
        Err(why) => Err(why@),
    }
}

fn field_names(fields: &Vec<(String, Json)>) -> (names: Vec<String>)
    ensures
        texts(names@) == names_of(fields_view(fields@)),
{
    let ghost all = names_of(fields_view(fields@));
    let mut names: Vec<String> = Vec::new();
    let mut i: usize = 0;
    assert(texts(names@) =~= all.take(0));
    while i < fields.len()
        invariant
            all == names_of(fields_view(fields@)),
            i <= fields@.len(),
            texts(names@) == all.take(i as int),
        decreases fields@.len() - i,
    {
        let ghost before = names@;
        names.push(fields[i].0.clone());
        i += 1;
        assert(all.take(i as int) =~= all.take(i - 1).push(all[i - 1]));
        assert(texts(names@) =~= texts(before).push(all[i - 1]));
    }
    assert(all.take(i as int) =~= all);
    names
}

fn key_names(kinds: &Vec<StepKey>) -> (names: Vec<String>)
    ensures
        texts(names@) == keys_of(kinds@),
{
    let ghost all = keys_of(kinds@);
    let mut names: Vec<String> = Vec::new();
    let mut i: usize = 0;
    assert(texts(names@) =~= all.take(0));
    while i < kinds.len()
        invariant
            all == keys_of(kinds@),
            i <= kinds@.len(),
            texts(names@) == all.take(i as int),
        decreases kinds@.len() - i,
    {
        let ghost before = names@;
        names.push(kinds[i].as_str().to_owned());
        i += 1;
        assert(all.take(i as int) =~= all.take(i - 1).push(all[i - 1]));
        assert(texts(names@) =~= texts(before).push(all[i - 1]));
    }
    assert(all.take(i as int) =~= all);
    names
}

/// Read one step.
pub fn parse_step(index: usize, step: &Json, is_claude: bool, live: &str) -> (r: Result<
    DriverStep,
    String,
>)
    ensures
        step_result(r) == step_reading(index as nat, step@, is_claude, live@),
{
    let fields = match step {
        Json::Object(fields) => fields,
        _ => {
            let mut text = "step ".to_owned();
            push_usize(&mut text, index);
            text.append(": must be a JSON object");
            return Err(text);
        },
    };
    let found = kinds_of(fields);
    if found.len() == 0 {
        let mut text = "step ".to_owned();
        push_usize(&mut text, index);
        text.append(": unknown step kind \u{2014} found ");
        text.append(name_fields(&field_names(fields)).as_str());
        text.append("; a step carries exactly one of ");
        text.append(name_kinds());
        return Err(text);
    }
    if found.len() > 1 {
        let mut text = "step ".to_owned();
        push_usize(&mut text, index);
        text.append(": ambiguous step \u{2014} carries ");
        text.append(name_fields(&key_names(&found)).as_str());
        text.append("; a step carries exactly one of ");
        text.append(name_kinds());
        return Err(text);
    }
    let kind: StepKey = found[0];
    if !is_claude && (kind == StepKey::WaitHook || kind == StepKey::SetDecision) {
        let mut text = "step ".to_owned();
        push_usize(&mut text, index);
        text.append(": \"");
        text.append(kind.as_str());
        text.append("\" needs the ");
        text.append(live);
        text.append(" hook channel, which this CLI does not provide");
        return Err(text);
    }
    let label = match find_field(fields, "label") {
        None => None,
        Some(Json::Text(label)) if chars_of(label.as_str()).len() > 0 => Some(label.clone()),
        Some(_) => {
            let mut text = step_text(index, kind);
            text.append("\"label\" must be a non-empty string");
            return Err(text);
        },
    };
    match parse_kind(index, kind, fields) {
        Ok(kind) => Ok(DriverStep { kind, label }),
        Err(why) => Err(why),
    }
}

/// The first top-level field that no script has.
pub open spec fn first_stray(root: Fields) -> Option<Seq<char>>
    decreases root.len(),
{
    if root.len() == 0 {
        None
    } else if !is_top_level(root[0].0) {
        Some(root[0].0)
    } else {
        first_stray(root.drop_first())
    }
}

/// Whether a script has a top-level field of that name.
pub open spec fn is_top_level(name: Seq<char>) -> bool {
    name == "name"@ || name == "description"@ || name == "cli"@ || name == "args"@ || name
        == "steps"@
}

fn reject_stray(root: &Vec<(String, Json)>) -> (r: Result<(), String>)
    ensures
        match r {
            Ok(()) => first_stray(fields_view(root@)) is None,
            Err(text) => first_stray(fields_view(root@)) matches Some(name) && text@
                == stray_fault(name),
        },
{
    let ghost all = fields_view(root@);
    let mut i: usize = 0;
    assert(all.skip(0) =~= all);
    while i < root.len()
        invariant
            all == fields_view(root@),
            i <= root@.len(),
            first_stray(all) == first_stray(all.skip(i as int)),
        decreases root@.len() - i,
    {
        assert(all.skip(i as int).drop_first() =~= all.skip(i + 1));
        let name = root[i].0.as_str();
        if !(same_text(name, "name") || same_text(name, "description") || same_text(name, "cli")
            || same_text(name, "args") || same_text(name, "steps")) {
            let mut text = "unknown top-level field \"".to_owned();
            text.append(name);
            text.append(
                "\" \u{2014} a script has \"name\", \"description\", \"cli\", \"args\", and \"steps\"",
            );
            return Err(text);
        }
        i += 1;
    }
    Ok(())
}

/// Why a script is rejected for a top-level field.
pub open spec fn stray_fault(name: Seq<char>) -> Seq<char> {
    "unknown top-level field \""@ + name
        + "\" \u{2014} a script has \"name\", \"description\", \"cli\", \"args\", and \"steps\""@
}

/// A script's description: its text, or why it is rejected.
pub open spec fn description_reading(root: Fields) -> Result<Seq<char>, Seq<char>> {
    match field_in(root, "description"@) {
        Some(JsonView::Text(text)) => if text.len() == 0 {
            Err("\"description\" must be a non-empty string"@)
        } else if has_control(text) {
            Err("\"description\" must be a single line without control characters"@)
        } else {
            Ok(text)
        },
        _ => Err("\"description\" must be a non-empty string"@),
    }
}

fn description_field(root: &Vec<(String, Json)>) -> (r: Result<String, String>)
    ensures
        text_result(r) == description_reading(fields_view(root@)),
{
    match find_field(root, "description") {
        Some(Json::Text(text)) => {
            if chars_of(text.as_str()).len() > 0 {
                if any_control(text.as_str()) {
                    return Err(
                        "\"description\" must be a single line without control characters".to_owned(),
                    );
                }
                return Ok(text.clone());
            }
        },
        _ => {},
    }
    Err("\"description\" must be a non-empty string".to_owned())
}

/// The arguments of a list, with the token for the script's directory replaced,
/// or the first that is no text.
pub open spec fn args_reading(items: Seq<JsonView>, dir: Seq<char>) -> Result<
    Seq<Seq<char>>,
    Seq<char>,
>
    decreases items.len(),
{
    if items.len() == 0 {
        Ok(Seq::empty())
    } else {
        match args_reading(items.drop_last(), dir) {
            Ok(args) => match items.last() {
                JsonView::Text(arg) => Ok(args.push(replaced(arg, "{script_dir}"@, dir))),
                _ => Err(
                    "args["@ + decimal((items.len() - 1) as nat) + "] must be a string"@,
                ),
            },
            Err(why) => Err(why),
        }
    }
}

/// A script's arguments, or why they are rejected.
pub open spec fn script_args(root: Fields, is_claude: bool, live: Seq<char>, dir: Seq<char>) -> Result<
    Seq<Seq<char>>,
    Seq<char>,
> {
    match field_in(root, "args"@) {
        None => Ok(Seq::empty()),
        Some(value) => if is_claude {
            Err(
                "\"args\" is not accepted for the "@ + live
                    + " CLI \u{2014} its launch line is the rig's contract"@,
            )
        } else {
            match value {
                JsonView::List(items) => args_reading(items, dir),
                _ => Err("\"args\" must be an array of strings"@),
            }
        },
    }
}

/// A result's contents.
pub open spec fn args_result(r: Result<Vec<String>, String>) -> Result<
    Seq<Seq<char>>,
    Seq<char>,
> {
    match r {
        Ok(args) => Ok(texts(args@)),
        Err(why) => Err(why@),
    }
}

/// A rejected prefix rejects the whole list.
proof fn lemma_args_fail(items: Seq<JsonView>, dir: Seq<char>, n: int)
    requires
        0 <= n <= items.len(),
        args_reading(items.take(n), dir) is Err,
    ensures
        args_reading(items, dir) == args_reading(items.take(n), dir),
    decreases items.len() - n,
{
    if n == items.len() {
        assert(items.take(n) =~= items);
    } else {
        assert(items.take(n + 1).drop_last() =~= items.take(n));
        lemma_args_fail(items, dir, n + 1);
    }
}

fn parse_args(root: &Vec<(String, Json)>, is_claude: bool, live: &str, dir: &str) -> (r: Result<
    Vec<String>,
    String,
>)
    ensures
        args_result(r) == script_args(fields_view(root@), is_claude, live@, dir@),
{
    broadcast use crate::report::lemma_texts_push;

    let value = match find_field(root, "args") {
        None => {
            let none: Vec<String> = Vec::new();
            assert(texts(none@) =~= Seq::empty());
            return Ok(none);
        },
        Some(value) => value,
    };
    if is_claude {
        let mut text = "\"args\" is not accepted for the ".to_owned();
        text.append(live);
        text.append(" CLI \u{2014} its launch line is the rig's contract");
        return Err(text);
    }
    let items = match value {
        Json::List(items) => items,
        _ => {
            return Err("\"args\" must be an array of strings".to_owned());
        },
    };
    let ghost views = list_view(items@);
    let mut args: Vec<String> = Vec::new();
    let mut i: usize = 0;
    assert(texts(args@) =~= Seq::empty());
    assert(views.take(0) =~= Seq::empty());
    while i < items.len()
        invariant
            views == list_view(items@),
            script_args(fields_view(root@), is_claude, live@, dir@) == args_reading(views, dir@),
            i <= items@.len(),
            args_reading(views.take(i as int), dir@) == Ok::<Seq<Seq<char>>, Seq<char>>(
                texts(args@),
            ),
        decreases items@.len() - i,
    {
        broadcast use crate::report::lemma_texts_push;

        assert(views.take(i + 1).drop_last() =~= views.take(i as int));
        match &items[i] {
            Json::Text(arg) => {
                proof {
                    reveal_strlit("{script_dir}");
                }
                args.push(replace(arg.as_str(), "{script_dir}", dir));
            },
            _ => {
                let mut text = "args[".to_owned();
                push_usize(&mut text, i);
                text.append("] must be a string");
                proof {
                    lemma_args_fail(views, dir@, i + 1);
                }
                return Err(text);
            },
        }
        i += 1;
    }
    assert(views.take(i as int) =~= views);
    Ok(args)
}

/// The steps of a list, or the first rejection.
pub open spec fn steps_reading(items: Seq<JsonView>, is_claude: bool, live: Seq<char>) -> Result<
    Seq<StepView>,
    Seq<char>,
>
    decreases items.len(),
{
    if items.len() == 0 {
        Ok(Seq::empty())
    } else {
        match steps_reading(items.drop_last(), is_claude, live) {
            Ok(steps) => match step_reading((items.len() - 1) as nat, items.last(), is_claude, live) {
                Ok(step) => Ok(steps.push(step)),
                Err(why) => Err(why),
            },
            Err(why) => Err(why),
        }
    }
}

/// A script's steps, or why they are rejected.
pub open spec fn script_steps(root: Fields, is_claude: bool, live: Seq<char>) -> Result<
    Seq<StepView>,
    Seq<char>,
> {
    match field_in(root, "steps"@) {
        Some(JsonView::List(items)) => if items.len() == 0 {
            Err("\"steps\" must not be empty"@)
        } else {
            steps_reading(items, is_claude, live)
        },
        Some(_) => Err("\"steps\" must be an array"@),
        None => Err("missing \"steps\""@),
    }
}

/// A result's contents.
pub open spec fn steps_result(r: Result<Vec<DriverStep>, String>) -> Result<
    Seq<StepView>,
    Seq<char>,
> {
    match r {
        Ok(steps) => Ok(step_views(steps@)),
        Err(why) => Err(why@),
    }
}

/// A rejected prefix rejects the whole list.
proof fn lemma_steps_fail(items: Seq<JsonView>, is_claude: bool, live: Seq<char>, n: int)
    requires
        0 <= n <= items.len(),
        steps_reading(items.take(n), is_claude, live) is Err,
    ensures
        steps_reading(items, is_claude, live) == steps_reading(items.take(n), is_claude, live),
    decreases items.len() - n,
{
    if n == items.len() {
        assert(items.take(n) =~= items);
    } else {
        assert(items.take(n + 1).drop_last() =~= items.take(n));
        lemma_steps_fail(items, is_claude, live, n + 1);
    }
}

fn parse_steps(root: &Vec<(String, Json)>, is_claude: bool, live: &str) -> (r: Result<
    Vec<DriverStep>,
    String,
>)
    ensures
        steps_result(r) == script_steps(fields_view(root@), is_claude, live@),
{
    let items = match find_field(root, "steps") {
        Some(Json::List(items)) => items,
        Some(_) => {
            return Err("\"steps\" must be an array".to_owned());
        },
        None => {
            return Err("missing \"steps\"".to_owned());
        },
    };
    if items.len() == 0 {
        return Err("\"steps\" must not be empty".to_owned());
    }
    let ghost views = list_view(items@);
    let mut steps: Vec<DriverStep> = Vec::new();
    let mut i: usize = 0;
    assert(step_views(steps@) =~= Seq::empty());
    assert(views.take(0) =~= Seq::empty());
    while i < items.len()
        invariant
            views == list_view(items@),
            script_steps(fields_view(root@), is_claude, live@) == steps_reading(views, is_claude, live@),
            i <= items@.len(),
            steps_reading(views.take(i as int), is_claude, live@) == Ok::<Seq<StepView>, Seq<char>>(
                step_views(steps@),
            ),
        decreases items@.len() - i,
    {
        assert(views.take(i + 1).drop_last() =~= views.take(i as int));
        let ghost before = steps@;
        match parse_step(i, &items[i], is_claude, live) {
            Ok(step) => {
                steps.push(step);
                assert(step_views(steps@) =~= step_views(before).push(step@));
            },
            Err(why) => {
                proof {
                    lemma_steps_fail(views, is_claude, live@, i + 1);
                }
                return Err(why);
            },
        }
        i += 1;
    }
    assert(views.take(i as int) =~= views);
    Ok(steps)
}

/// A script: its contents, or why it is rejected. `live` names the CLI that the
/// full launch rig hosts. The first thing wrong is reported: a field that no
/// script has, then the name, the CLI, the description, the arguments and the
/// steps.
pub open spec fn script_reading(root: JsonView, dir: Seq<char>, live: Seq<char>) -> Result<
    ScriptView,
    Seq<char>,
> {
    match root {
        JsonView::Object(root) => match first_stray(root) {
            Some(name) => Err(stray_fault(name)),
            None => match kebab_reading(root, "name"@) {
                Err(why) => Err(why),
                Ok(name) => match kebab_reading(root, "cli"@) {
                    Err(why) => Err(why),
                    Ok(cli) => match description_reading(root) {
                        Err(why) => Err(why),
                        Ok(description) => match script_args(root, cli == live, live, dir) {
                            Err(why) => Err(why),
                            Ok(args) => match script_steps(root, cli == live, live) {
                                Err(why) => Err(why),
                                Ok(steps) => Ok(
                                    ScriptView { name, description, cli, args, steps },
                                ),
                            },
                        },
                    },
                },
            },
        },
        _ => Err("the script must be a JSON object"@),
    }
}

/// A result's contents.
pub open spec fn script_result(r: Result<RecordScript, String>) -> Result<
    ScriptView,
    Seq<char>,
> {
    match r {
        Ok(script) => Ok(script@),
        Err(why) => Err(why@),
    }
}

/// The script that a JSON value states.
pub fn script_of(root: &Json, script_dir: &str, live: &str) -> (r: Result<RecordScript, String>)
    ensures
        script_result(r) == script_reading(root@, script_dir@, live@),
{
    let root = match root {
        Json::Object(root) => root,
        _ => {
            return Err("the script must be a JSON object".to_owned());
        },
    };
    match reject_stray(root) {
        Ok(()) => {},
        Err(why) => {
            return Err(why);
        },
    }
    let name = match kebab_field(root, "name") {
        Ok(name) => name,
        Err(why) => {
            return Err(why);
        },
    };
    let cli = match kebab_field(root, "cli") {
        Ok(cli) => cli,
        Err(why) => {
            return Err(why);
        },
    };
    let description = match description_field(root) {
        Ok(description) => description,
        Err(why) => {
            return Err(why);
        },
    };
    let is_claude = same_text(cli.as_str(), live);
    let args = match parse_args(root, is_claude, live, script_dir) {
        Ok(args) => args,
        Err(why) => {
            return Err(why);
        },
    };
    let steps = match parse_steps(root, is_claude, live) {
        Ok(steps) => steps,
        Err(why) => {
            return Err(why);
        },
    };
    Ok(RecordScript { name, description, cli, args, steps })
}

/// Read a record script. `script_dir` is the script's own directory, which the
/// token `{script_dir}` in an argument stands for; `live` names the CLI that the
/// full launch rig hosts.
pub fn parse_script(text: &str, script_dir: &str, live: &str) -> (r: Result<RecordScript, String>)
    ensures
        script_result(r) == match json_reading(text@) {
            Ok(root) => script_reading(root, script_dir@, live@),
            Err(why) => Err("invalid JSON: "@ + why),
        },
{
    match read_json(text) {
        Ok(root) => script_of(&root, script_dir, live),
        Err(why) => {
            let mut text = "invalid JSON: ".to_owned();
            text.append(why.as_str());
            Err(text)
        },
    }
}

/// A script for a CLI without the hook channel never holds a step that needs
/// it: such a script is rejected as a whole, before any session starts.
pub proof fn law_a_generic_script_needs_no_hooks(
    root: JsonView,
    dir: Seq<char>,
    live: Seq<char>,
    i: int,
)
    requires
        script_reading(root, dir, live) matches Ok(script) && script.cli != live && 0 <= i
            < script.steps.len(),
    ensures
        ({
            let kind = script_reading(root, dir, live)->Ok_0.steps[i].kind;
            !(kind is WaitHook) && !(kind is SetDecision)
        }),
{
    let fields = root->Object_0;
    lemma_generic_steps(field_in(fields, "steps"@)->Some_0->List_0, live, i);
}

proof fn lemma_generic_steps(items: Seq<JsonView>, live: Seq<char>, i: int)
    requires
        steps_reading(items, false, live) matches Ok(steps) && 0 <= i < steps.len(),
    ensures
        ({
            let kind = steps_reading(items, false, live)->Ok_0[i].kind;
            !(kind is WaitHook) && !(kind is SetDecision)
        }),
    decreases items.len(),
{
    let before = steps_reading(items.drop_last(), false, live)->Ok_0;
    if i < before.len() {
        lemma_generic_steps(items.drop_last(), live, i);
    }
}

/// What a script says of itself is fit to name files by: its name and its CLI
/// are kebab case, its description is one line, and it has steps.
pub proof fn law_an_accepted_script_is_well_named(root: JsonView, dir: Seq<char>, live: Seq<char>)
    requires
        script_reading(root, dir, live) is Ok,
    ensures
        ({
            let script = script_reading(root, dir, live)->Ok_0;
            &&& kebab(script.name)
            &&& kebab(script.cli)
            &&& script.description.len() > 0
            &&& !has_control(script.description)
            &&& script.steps.len() > 0
            &&& script.cli == live ==> script.args.len() == 0
        }),
{
    let fields = root->Object_0;
    let items = field_in(fields, "steps"@)->Some_0->List_0;
    reveal_with_fuel(steps_reading, 2);
}

/// A named key sends what a terminal sends for it, and a printable character is
/// its own key.
pub proof fn law_each_key_sends_its_bytes(c: char)
    ensures
        key_sends("enter"@) == Some(seq![13u8]),
        key_sends("tab"@) == Some(seq![9u8]),
        key_sends("esc"@) == Some(seq![27u8]),
        key_sends("space"@) == Some(seq![32u8]),
        key_sends("backspace"@) == Some(seq![127u8]),
        key_sends("up"@) == Some(seq![27u8, 91, 65]),
        key_sends("down"@) == Some(seq![27u8, 91, 66]),
        key_sends("right"@) == Some(seq![27u8, 91, 67]),
        key_sends("left"@) == Some(seq![27u8, 91, 68]),
        key_sends("ctrl-c"@) == Some(seq![3u8]),
        '!' <= c <= '~' ==> key_sends(seq![c]) == Some(seq![c as u8]),
        !('!' <= c <= '~') ==> key_sends(seq![c]) is None,
{
    reveal_strlit("enter");
    reveal_strlit("tab");
    reveal_strlit("esc");
    reveal_strlit("space");
    reveal_strlit("backspace");
    reveal_strlit("up");
    reveal_strlit("down");
    reveal_strlit("right");
    reveal_strlit("left");
    reveal_strlit("ctrl-c");
    assert("enter"@.len() == 5 && "space"@.len() == 5 && "right"@.len() == 5);
    assert("tab"@.len() == 3 && "esc"@.len() == 3 && "up"@.len() == 2);
    assert("backspace"@.len() == 9 && "ctrl-c"@.len() == 6);
    assert("down"@.len() == 4 && "left"@.len() == 4);
    assert("enter"@[0] == 'e' && "space"@[0] == 's' && "right"@[0] == 'r');
    assert("tab"@[0] == 't' && "esc"@[0] == 'e');
    assert("down"@[0] == 'd' && "left"@[0] == 'l');
    assert(seq![c].len() == 1);
}

/// A name is kebab case when it is lower-case letters, digits and hyphens, with no
/// hyphen at either end.
pub proof fn law_a_name_is_letters_digits_and_inner_hyphens(s: Seq<char>)
    ensures
        kebab(s) <==> s.len() > 0 && s[0] != '-' && s[s.len() - 1] != '-' && forall|i: int|
            0 <= i < s.len() ==> 'a' <= #[trigger] s[i] <= 'z' || '0' <= s[i] <= '9' || s[i]
                == '-',
{
    if kebab(s) {
        assert forall|i: int| 0 <= i < s.len() implies 'a' <= #[trigger] s[i] <= 'z' || '0' <= s[i]
            <= '9' || s[i] == '-' by {
            assert(is_kebab_char(s[i]));
        }
    }
}

/// A step of a kind carries its key, a label and, where it waits, a timeout, and
/// nothing else.
pub proof fn law_a_step_carries_only_its_fields(kind: StepKey, fields: Fields)
    ensures
        first_unknown(kind, fields) is None <==> forall|i: int|
            0 <= i < fields.len() ==> (#[trigger] fields[i]).0 == kind.key() || fields[i].0
                == "label"@ || (fields[i].0 == "timeout_ms"@ && (kind == StepKey::WaitQuiet || kind
                == StepKey::WaitText || kind == StepKey::WaitHook)),
    decreases fields.len(),
{
    if fields.len() > 0 {
        let rest = fields.drop_first();
        law_a_step_carries_only_its_fields(kind, rest);
        if first_unknown(kind, fields) is None {
            assert forall|i: int| 0 <= i < fields.len() implies (#[trigger] fields[i]).0
                == kind.key() || fields[i].0 == "label"@ || (fields[i].0 == "timeout_ms"@ && (kind
                == StepKey::WaitQuiet || kind == StepKey::WaitText || kind
                == StepKey::WaitHook)) by {
                if i > 0 {
                    assert(rest[i - 1] == fields[i]);
                }
            }
        } else if kind.allows(fields[0].0) {
            let i = choose|i: int|
                0 <= i < rest.len() && !((#[trigger] rest[i]).0 == kind.key() || rest[i].0
                    == "label"@ || (rest[i].0 == "timeout_ms"@ && (kind == StepKey::WaitQuiet
                    || kind == StepKey::WaitText || kind == StepKey::WaitHook)));
            assert(fields[i + 1] == rest[i]);
        } else {
            assert(fields[0].0 == fields[0].0);
        }
    }
}

/// Whether a field is a text that says something.
pub open spec fn says(fields: Fields, name: Seq<char>, text: Seq<char>) -> bool {
    field_in(fields, name) == Some(JsonView::Text(text)) && text.len() > 0
}

/// Whether a field is a number of milliseconds above zero.
pub open spec fn lasts(fields: Fields, name: Seq<char>, ms: u64) -> bool {
    ms > 0 && (field_in(fields, name) matches Some(JsonView::Number(_, Some(n))) && n == ms)
}

/// An accepted step does what its fields say: it is of the one kind whose key it
/// carries, and its contents are what stands under that key and beside it.
pub proof fn law_an_accepted_step_does_what_it_says(
    index: nat,
    fields: Fields,
    is_claude: bool,
    live: Seq<char>,
    step: StepView,
)
    requires
        step_reading(index, JsonView::Object(fields), is_claude, live) == Ok::<StepView, Seq<char>>(
            step,
        ),
    ensures
        match step.kind {
            KindView::TypeLine { text } => says(fields, "type_line"@, text),
            KindView::Press { key, bytes } => says(fields, "press"@, key) && key_sends(key) == Some(
                bytes,
            ),
            KindView::WaitQuiet { quiet_ms, timeout_ms } => lasts(
                fields,
                "wait_quiet_ms"@,
                quiet_ms,
            ) && lasts(fields, "timeout_ms"@, timeout_ms),
            KindView::WaitText { marker, timeout_ms } => says(fields, "wait_text"@, marker)
                && lasts(fields, "timeout_ms"@, timeout_ms),
            KindView::WaitHook { hook, timeout_ms } => is_claude && says(
                fields,
                "wait_hook"@,
                hook,
            ) && lasts(fields, "timeout_ms"@, timeout_ms),
            KindView::SetDecision { decision } => is_claude && exists|word: Seq<char>| #[trigger]
                says(fields, "set_decision"@, word) && decision_named(word) == Some(decision),
            KindView::Pause { ms } => lasts(fields, "pause_ms"@, ms),
        },
        match step.label {
            Some(label) => says(fields, "label"@, label),
            None => field_in(fields, "label"@) is None,
        },
        sum_of_kinds(fields) == 1,
{
    let found = found_kinds(fields);
    lemma_kinds_counted(fields);
    if let KindView::SetDecision { decision } = step.kind {
        let word = string_reading(index, found[0], fields, "set_decision"@)->Ok_0;
        assert(says(fields, "set_decision"@, word));
    }
}

/// How many of the seven kind keys a step carries.
pub open spec fn sum_of_kinds(fields: Fields) -> int {
    let one = |name: Seq<char>|
        if field_in(fields, name) is Some {
            1int
        } else {
            0int
        };
    one("type_line"@) + one("press"@) + one("wait_quiet_ms"@) + one("wait_text"@) + one(
        "wait_hook"@,
    ) + one("set_decision"@) + one("pause_ms"@)
}

proof fn lemma_kinds_counted(fields: Fields)
    ensures
        found_kinds(fields).len() == sum_of_kinds(fields),
{
}

/// A step with no kind key or with more than one is rejected.
pub proof fn law_a_step_is_of_one_kind(
    index: nat,
    fields: Fields,
    is_claude: bool,
    live: Seq<char>,
)
    ensures
        sum_of_kinds(fields) != 1 ==> step_reading(
            index,
            JsonView::Object(fields),
            is_claude,
            live,
        ) is Err,
{
    lemma_kinds_counted(fields);
}

/// The steps of an accepted list are those of its items, each read at its own
/// place, and none is left out.
pub proof fn law_each_item_is_a_step(
    items: Seq<JsonView>,
    is_claude: bool,
    live: Seq<char>,
)
    ensures
        steps_reading(items, is_claude, live) matches Ok(steps) ==> steps.len() == items.len()
            && forall|i: int|
            0 <= i < items.len() ==> step_reading(i as nat, #[trigger] items[i], is_claude, live)
                == Ok::<StepView, Seq<char>>(steps[i]),
        steps_reading(items, is_claude, live) is Err ==> exists|i: int|
            0 <= i < items.len() && step_reading(
                i as nat,
                #[trigger] items[i],
                is_claude,
                live,
            ) is Err,
    decreases items.len(),
{
    if items.len() > 0 {
        let front = items.drop_last();
        law_each_item_is_a_step(front, is_claude, live);
        let n = items.len() - 1;
        assert(items[n] == items.last());
        match steps_reading(front, is_claude, live) {
            Ok(earlier) => {
                if let Ok(steps) = steps_reading(items, is_claude, live) {
                    assert forall|i: int| 0 <= i < items.len() implies step_reading(
                        i as nat,
                        #[trigger] items[i],
                        is_claude,
                        live,
                    ) == Ok::<StepView, Seq<char>>(steps[i]) by {
                        if i < n {
                            assert(front[i] == items[i]);
                        }
                    }
                }
            },
            Err(_) => {
                let i = choose|i: int|
                    0 <= i < front.len() && step_reading(
                        i as nat,
                        #[trigger] front[i],
                        is_claude,
                        live,
                    ) is Err;
                assert(items[i] == front[i]);
            },
        }
    }
}

/// The arguments of an accepted list are its texts, each with the token for the
/// script's directory replaced.
pub proof fn law_each_item_is_an_argument(items: Seq<JsonView>, dir: Seq<char>)
    ensures
        args_reading(items, dir) is Ok <==> forall|i: int|
            0 <= i < items.len() ==> (#[trigger] items[i]) is Text,
        args_reading(items, dir) matches Ok(args) ==> args.len() == items.len() && forall|i: int|
            0 <= i < items.len() ==> args[i] == replaced(
                (#[trigger] items[i])->Text_0,
                "{script_dir}"@,
                dir,
            ),
    decreases items.len(),
{
    if items.len() > 0 {
        let front = items.drop_last();
        law_each_item_is_an_argument(front, dir);
        let n = items.len() - 1;
        assert(items[n] == items.last());
        if args_reading(items, dir) is Ok {
            let args = args_reading(items, dir)->Ok_0;
            assert forall|i: int| 0 <= i < items.len() implies (#[trigger] items[i]) is Text
                && args[i] == replaced(items[i]->Text_0, "{script_dir}"@, dir) by {
                if i < n {
                    assert(front[i] == items[i]);
                }
            }
        }
        if forall|i: int| 0 <= i < items.len() ==> (#[trigger] items[i]) is Text {
            assert forall|i: int| 0 <= i < front.len() implies (#[trigger] front[i]) is Text by {
                assert(front[i] == items[i]);
            }
        }
    }
}

/// An accepted script is what its fields say, and has no others.
pub proof fn law_an_accepted_script_says_what_it_holds(
    root: Fields,
    dir: Seq<char>,
    live: Seq<char>,
    script: ScriptView,
)
    requires
        script_reading(JsonView::Object(root), dir, live) == Ok::<ScriptView, Seq<char>>(script),
    ensures
        field_in(root, "name"@) == Some(JsonView::Text(script.name)),
        field_in(root, "cli"@) == Some(JsonView::Text(script.cli)),
        field_in(root, "description"@) == Some(JsonView::Text(script.description)),
        script.description.len() > 0 && !has_control(script.description),
        field_in(root, "steps"@) matches Some(JsonView::List(items)) && items.len() > 0
            && steps_reading(items, script.cli == live, live) == Ok::<Seq<StepView>, Seq<char>>(
            script.steps,
        ),
        match field_in(root, "args"@) {
            None => script.args.len() == 0,
            Some(JsonView::List(items)) => script.cli != live && args_reading(items, dir) == Ok::<
                Seq<Seq<char>>,
                Seq<char>,
            >(script.args),
            Some(_) => false,
        },
        forall|i: int|
            0 <= i < root.len() ==> (#[trigger] root[i]).0 == "name"@ || root[i].0
                == "description"@ || root[i].0 == "cli"@ || root[i].0 == "args"@ || root[i].0
                == "steps"@,
{
    lemma_no_stray(root);
}

proof fn lemma_no_stray(root: Fields)
    requires
        first_stray(root) is None,
    ensures
        forall|i: int| 0 <= i < root.len() ==> is_top_level((#[trigger] root[i]).0),
    decreases root.len(),
{
    if root.len() > 0 {
        let rest = root.drop_first();
        lemma_no_stray(rest);
        assert forall|i: int| 0 <= i < root.len() implies is_top_level((#[trigger] root[i]).0) by {
            if i > 0 {
                assert(rest[i - 1] == root[i]);
            }
        }
    }
}

} // verus!
