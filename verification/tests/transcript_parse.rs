use ijoka::json::parse_json;
use ijoka::transcript::{classify_record, get_last_transcript_entry};

fn classify(line: &str) -> (Option<String>, Option<String>) {
    classify_record(&parse_json(line).unwrap())
}

#[test]
fn user_text_message() {
    let (tool, payload) = classify(
        "{\"type\":\"user\",\"message\":{\"content\":[{\"type\":\"text\",\"text\":\"hi there\"}]}}",
    );
    assert_eq!(tool, Some("UserMessage".to_string()));
    assert_eq!(
        payload,
        Some("{\"messageType\":\"user\",\"preview\":\"hi there\"}".to_string())
    );
}

#[test]
fn user_text_preview_capped_at_500() {
    let long = "y".repeat(800);
    let line = format!(
        "{{\"type\":\"user\",\"message\":{{\"content\":[{{\"type\":\"text\",\"text\":\"{}\"}}]}}}}",
        long
    );
    let (_, payload) = classify(&line);
    let payload = payload.unwrap();
    let expected = format!("{{\"messageType\":\"user\",\"preview\":\"{}\"}}", "y".repeat(500));
    assert_eq!(payload, expected);
}

#[test]
fn empty_user_text_falls_through() {
    let (tool, payload) = classify(
        "{\"type\":\"user\",\"message\":{\"content\":[{\"type\":\"text\",\"text\":\"\"}]}}",
    );
    assert_eq!(tool, Some("UserMessage".to_string()));
    assert_eq!(
        payload,
        Some("{\"messageType\":\"user\",\"preview\":\"\"}".to_string())
    );
}

#[test]
fn user_tool_result_joins_text_blocks() {
    let (tool, payload) = classify("{\"type\":\"user\",\"message\":{\"content\":[{\"type\":\"tool_result\",\"tool_use_id\":\"tu1\",\"is_error\":true,\"content\":[{\"type\":\"text\",\"text\":\"one\"},{\"type\":\"text\",\"text\":\"two\"}]}]}}");
    assert_eq!(tool, Some("ToolResult".to_string()));
    assert_eq!(
        payload,
        Some(
            "{\"isError\":true,\"messageType\":\"tool_result\",\"preview\":\"one\\ntwo\",\"toolUseId\":\"tu1\"}"
                .to_string()
        )
    );
}

#[test]
fn assistant_bash_tool_use() {
    let (tool, payload) = classify("{\"type\":\"assistant\",\"message\":{\"content\":[{\"type\":\"tool_use\",\"name\":\"Bash\",\"input\":{\"command\":\"ls -la\",\"description\":\"list files\"}}]}}");
    assert_eq!(tool, Some("Bash".to_string()));
    assert_eq!(
        payload,
        Some(
            "{\"command\":\"ls -la\",\"description\":\"list files\",\"messageType\":\"tool_use\",\"tool\":\"Bash\"}"
                .to_string()
        )
    );
}

#[test]
fn assistant_edit_previews_capped_at_200() {
    let long = "z".repeat(300);
    let line = format!(
        "{{\"type\":\"assistant\",\"message\":{{\"content\":[{{\"type\":\"tool_use\",\"name\":\"Edit\",\"input\":{{\"file_path\":\"/f.rs\",\"old_string\":\"{}\",\"new_string\":\"n\"}}}}]}}}}",
        long
    );
    let (tool, payload) = classify(&line);
    assert_eq!(tool, Some("Edit".to_string()));
    let expected = format!(
        "{{\"filePath\":\"/f.rs\",\"messageType\":\"tool_use\",\"newString\":\"n\",\"oldString\":\"{}\",\"tool\":\"Edit\"}}",
        "z".repeat(200)
    );
    assert_eq!(payload, Some(expected));
}

#[test]
fn assistant_read_keeps_offset_and_limit() {
    let (tool, payload) = classify("{\"type\":\"assistant\",\"message\":{\"content\":[{\"type\":\"tool_use\",\"name\":\"Read\",\"input\":{\"file_path\":\"/f.rs\",\"offset\":10,\"limit\":40}}]}}");
    assert_eq!(tool, Some("Read".to_string()));
    assert_eq!(
        payload,
        Some(
            "{\"filePath\":\"/f.rs\",\"limit\":40,\"messageType\":\"tool_use\",\"offset\":10,\"tool\":\"Read\"}"
                .to_string()
        )
    );
}

#[test]
fn assistant_unknown_tool_gets_generic_preview() {
    let (tool, payload) = classify("{\"type\":\"assistant\",\"message\":{\"content\":[{\"type\":\"tool_use\",\"name\":\"WebSearch\",\"input\":{\"query\":\"verus\"}}]}}");
    assert_eq!(tool, Some("WebSearch".to_string()));
    assert_eq!(
        payload,
        Some(
            "{\"inputPreview\":\"{\\\"query\\\":\\\"verus\\\"}\",\"messageType\":\"tool_use\",\"tool\":\"WebSearch\"}"
                .to_string()
        )
    );
}

#[test]
fn assistant_empty_input_gets_no_preview() {
    let (tool, payload) = classify("{\"type\":\"assistant\",\"message\":{\"content\":[{\"type\":\"tool_use\",\"name\":\"Noop\",\"input\":{}}]}}");
    assert_eq!(tool, Some("Noop".to_string()));
    assert_eq!(
        payload,
        Some("{\"messageType\":\"tool_use\",\"tool\":\"Noop\"}".to_string())
    );
}

#[test]
fn assistant_text_and_thinking() {
    let (tool, payload) = classify(
        "{\"type\":\"assistant\",\"message\":{\"content\":[{\"type\":\"text\",\"text\":\"done\"}]}}",
    );
    assert_eq!(tool, Some("Response".to_string()));
    assert_eq!(
        payload,
        Some("{\"messageType\":\"assistant\",\"preview\":\"done\"}".to_string())
    );
    let (tool, payload) = classify(
        "{\"type\":\"assistant\",\"message\":{\"content\":[{\"type\":\"thinking\",\"thinking\":\"hm\"}]}}",
    );
    assert_eq!(tool, Some("Thinking".to_string()));
    assert_eq!(
        payload,
        Some("{\"messageType\":\"thinking\",\"preview\":\"hm\"}".to_string())
    );
}

#[test]
fn assistant_without_items_is_bare() {
    let (tool, payload) = classify("{\"type\":\"assistant\",\"message\":{\"content\":[]}}");
    assert_eq!(tool, Some("Assistant".to_string()));
    assert_eq!(payload, None);
}

#[test]
fn result_record_uses_output_fallback() {
    let (tool, payload) = classify("{\"type\":\"result\",\"is_error\":true,\"output\":\"boom\"}");
    assert_eq!(tool, Some("ToolResult".to_string()));
    assert_eq!(
        payload,
        Some(
            "{\"isError\":true,\"messageType\":\"tool_result\",\"preview\":\"boom\",\"toolUseId\":\"unknown\"}"
                .to_string()
        )
    );
}

#[test]
fn result_preview_capped_at_300() {
    let long = "r".repeat(450);
    let line = format!("{{\"type\":\"result\",\"content\":\"{}\"}}", long);
    let (_, payload) = classify(&line);
    let expected = format!(
        "{{\"isError\":false,\"messageType\":\"tool_result\",\"preview\":\"{}\",\"toolUseId\":\"unknown\"}}",
        "r".repeat(300)
    );
    assert_eq!(payload, Some(expected));
}

#[test]
fn unrecognized_type_yields_nothing() {
    assert_eq!(classify("{\"type\":\"summary\",\"text\":\"x\"}"), (None, None));
    assert_eq!(classify("{\"no_type\":true}"), (None, None));
}

#[test]
fn last_entry_comes_from_last_nonblank_line() {
    let content = "{\"type\":\"user\",\"message\":{\"content\":[{\"type\":\"text\",\"text\":\"old\"}]}}\n{\"type\":\"assistant\",\"message\":{\"content\":[{\"type\":\"text\",\"text\":\"new\"}]}}\n   \n";
    let (tool, payload) = get_last_transcript_entry(content);
    assert_eq!(tool, Some("Response".to_string()));
    assert_eq!(
        payload,
        Some("{\"messageType\":\"assistant\",\"preview\":\"new\"}".to_string())
    );
}

#[test]
fn unreadable_last_line_yields_nothing() {
    assert_eq!(get_last_transcript_entry("{\"type\":\"user\"}\nnot json\n"), (None, None));
    assert_eq!(get_last_transcript_entry("\n\n"), (None, None));
}
