//! The hook settings, the listener's replies and the forwarder.
use bridge_probes::hooks::{
    decision_of, event_from, event_of, forward_line, forward_output, hook_command, read_reply,
    pipe_step, received, reply_for, settings_json, Decision, PipeFault, PipeStep, HOOK_EVENTS,
    TOOL_HOOK_TIMEOUT_SECS,
};
use bridge_probes::json::Json;

fn item(json: &Json, index: usize) -> &Json {
    match json {
        Json::List(items) => &items[index],
        other => panic!("not a list: {other:?}"),
    }
}

fn get<'a>(json: &'a Json, key: &str) -> &'a Json {
    json.get(key).unwrap_or_else(|| panic!("no field {key} in {json:?}"))
}

#[test]
fn hooks_settings_json_registers_every_hook_against_the_forwarder() {
    let settings = settings_json("\"/probe\" hook-forward --endpoint \"/tmp/h.sock\"");
    let hooks = get(&settings, "hooks");
    match hooks {
        Json::Object(fields) => assert_eq!(fields.len(), HOOK_EVENTS.len()),
        other => panic!("hooks object, not {other:?}"),
    }
    for event in HOOK_EVENTS {
        let entry = item(get(hooks, event), 0);
        let command = item(get(entry, "hooks"), 0);
        let text = command.get_text("command").unwrap();
        assert!(
            text.contains("hook-forward"),
            "{event} must route to hook-forward: {text}"
        );
        assert_eq!(command.get_text("type"), Some("command"));
    }
    // Only the tool-lifecycle hooks carry a matcher and a timeout: the CLI
    // blocks on their reply, and an empty matcher means every tool.
    for event in ["PreToolUse", "PostToolUse"] {
        let entry = item(get(hooks, event), 0);
        assert_eq!(entry.get_text("matcher"), Some(""));
        match get(item(get(entry, "hooks"), 0), "timeout") {
            Json::Number(_, n) => assert_eq!(*n, Some(TOOL_HOOK_TIMEOUT_SECS as u64)),
            other => panic!("{other:?}"),
        }
    }
    assert!(item(get(hooks, "SessionStart"), 0).get("matcher").is_none());
    assert!(item(get(item(get(hooks, "Stop"), 0), "hooks"), 0)
        .get("timeout")
        .is_none());
}

#[test]
fn settings_read_back_with_an_independent_parser() {
    let text = settings_json("run \"it\"\t").to_text();
    let value: serde_json::Value = serde_json::from_str(&text).unwrap();
    assert_eq!(value["hooks"]["Stop"][0]["hooks"][0]["command"], "run \"it\"\t");
    assert_eq!(value["hooks"]["PreToolUse"][0]["hooks"][0]["timeout"], 30);
    assert_eq!(value.to_string(), text);
}

#[test]
fn both_tool_lifecycle_hooks_are_registered() {
    // The deny assertion is "PreToolUse fired, PostToolUse did not"; dropping
    // either one silently turns that check into a tautology.
    assert!(HOOK_EVENTS.contains(&"PreToolUse"));
    assert!(HOOK_EVENTS.contains(&"PostToolUse"));
}

#[test]
fn hook_command_quotes_both_paths() {
    let command = hook_command("/opt/probe dir/probe", "/tmp/x/hook.sock");
    assert_eq!(
        command,
        "\"/opt/probe dir/probe\" hook-forward --endpoint \"/tmp/x/hook.sock\""
    );
}

#[test]
fn reply_carries_the_current_decision() {
    let reply: serde_json::Value =
        serde_json::from_str(reply_for(Decision::Deny).trim()).unwrap();
    assert_eq!(reply["decision"], "deny");
    assert!(reply["reason"].as_str().unwrap().contains("deny"));
    assert_eq!(
        reply_for(Decision::Allow),
        "{\"decision\":\"allow\",\"reason\":\"interactive-probe external approver: allow\"}\n"
    );
}

#[test]
fn events_are_named_by_their_payload() {
    let event = event_from(
        "{\"hook_event_name\": \"SessionStart\", \"transcript_path\": \"/t.jsonl\"}",
        17,
    );
    assert_eq!(event.name, "SessionStart");
    assert_eq!(event.payload.get_text("transcript_path"), Some("/t.jsonl"));
    assert_eq!(event.at, 17);
    // A number is parsed once, however deep it stands.
    let nested = event_from("{\"a\":[[9.300000000000014],{\"b\":[1,true,null,\"x\"]}]}", 0);
    let direct: serde_json::Value = serde_json::from_str("9.300000000000014").unwrap();
    assert_eq!(
        nested.payload.to_text(),
        format!("{{\"a\":[[{direct}],{{\"b\":[1,true,null,\"x\"]}}]}}")
    );
    assert_eq!(event_from("{}", 0).name, "unknown");
    assert_eq!(event_from("[1,2]", 0).name, "unknown");
}

#[test]
fn malformed_payloads_surface_as_events_not_crashes() {
    let event = event_from("not json at all", 0);
    assert_eq!(event.name, "unparseable");
    assert_eq!(event.payload.get_text("raw"), Some("not json at all"));
    let event = event_of(Err("whatever".to_string()), "raw line", 3);
    assert_eq!(event.name, "unparseable");
    assert_eq!(event.payload.get_text("raw"), Some("raw line"));
}

#[test]
fn a_connection_that_sent_nothing_is_no_event() {
    assert!(received(b"", 1).is_none());
    let event = received(b"{\"hook_event_name\":\"Stop\"}\n", 5).unwrap();
    assert_eq!(event.name, "Stop");
    assert_eq!(event.at, 5);
}

#[test]
fn decisions_are_named_by_their_words() {
    for decision in [Decision::NoOpinion, Decision::Allow, Decision::Deny, Decision::Ask] {
        assert_eq!(decision_of(decision.as_str()), Some(decision));
    }
    assert_eq!(decision_of("maybe"), None);
}

#[test]
fn a_payload_is_forwarded_in_one_line() {
    let (value, line) =
        forward_line("{\n  \"hook_event_name\": \"PreToolUse\",\n  \"n\": [1, -2, 1.5e3, null, true]\n}")
            .unwrap();
    assert_eq!(
        line,
        "{\"hook_event_name\":\"PreToolUse\",\"n\":[1,-2,1500.0,null,true]}"
    );
    assert_eq!(value.get_text("hook_event_name"), Some("PreToolUse"));
    let err = forward_line("{").unwrap_err();
    assert!(err.starts_with("hook-forward: payload is not JSON: EOF"), "{err}");
}

#[test]
fn only_a_decided_tool_call_is_answered() {
    let (tool, _) = forward_line("{\"hook_event_name\":\"PreToolUse\"}").unwrap();
    let (stop, _) = forward_line("{\"hook_event_name\":\"Stop\"}").unwrap();
    let deny = read_reply(&reply_for(Decision::Deny)).unwrap();
    let none = read_reply(&reply_for(Decision::NoOpinion)).unwrap();
    let bare = read_reply(" {\"decision\":\"ask\"} \n").unwrap();
    assert_eq!(
        forward_output(&tool, &deny).unwrap(),
        "{\"hookSpecificOutput\":{\"hookEventName\":\"PreToolUse\",\"permissionDecision\":\"deny\",\"permissionDecisionReason\":\"interactive-probe external approver: deny\"}}"
    );
    assert!(forward_output(&tool, &none).is_none());
    assert!(forward_output(&stop, &deny).is_none());
    assert!(forward_output(&tool, &bare)
        .unwrap()
        .contains("\"permissionDecisionReason\":\"interactive-probe external approver\""));
    let err = read_reply("nope").unwrap_err();
    assert!(err.starts_with("reply is not JSON: "), "{err}");
}

#[test]
fn strings_are_quoted_as_an_independent_parser_writes_them() {
    for text in ["", "plain", "a\"b\\c", "\u{8}\u{c}\n\r\t\u{1}\u{1f}\u{7f}", "é🌍\u{2028}"] {
        let rendered = Json::Text(text.to_string()).to_text();
        assert_eq!(rendered, serde_json::Value::from(text).to_string());
        let back: String = serde_json::from_str(&rendered).unwrap();
        assert_eq!(back, text);
    }
}

#[test]
fn settings_are_laid_out_for_reading() {
    let settings = settings_json("run \"it\"");
    let value: serde_json::Value = serde_json::from_str(&settings.to_text()).unwrap();
    let pretty = settings.to_pretty();
    assert_eq!(pretty, serde_json::to_string_pretty(&value).unwrap());
    assert!(pretty.starts_with("{\n  \"hooks\": {\n    \"Notification\": ["), "{pretty}");
}

#[test]
fn a_busy_pipe_is_retried_for_ten_seconds() {
    assert!(matches!(pipe_step(&PipeFault::Busy, 9_999_999_999), PipeStep::Retry));
    match pipe_step(&PipeFault::Busy, 10_000_000_000) {
        PipeStep::Fail(text) => assert_eq!(text, "pipe busy for 10s"),
        other => panic!("{other:?}"),
    }
    match pipe_step(&PipeFault::Failed { error: "gone".to_string() }, 0) {
        PipeStep::Fail(text) => assert_eq!(text, "connect: gone"),
        other => panic!("{other:?}"),
    }
}
