use agent_bookkeeper::hindsight::{
    http_status_error, http_transport_error, judge_response, read_response, retain_body,
    validate_bank_id, workspace_tag, HindsightConsumerError, HindsightHttpConfig,
    HindsightObservationScopes, HindsightRenderProfile, HindsightRetainRequest, Metadata,
};
use agent_bookkeeper::json::{parse_text, Json};
use agent_bookkeeper::transcript::{
    extract_function_output_text, extract_mcp_result_text, extract_text_from_content_blocks,
    is_synthetic_codex_user_message, parse_codex_transcript, split_lines, strip_memory_tags,
    truncate_tool_output, value_to_text,
};

#[test]
fn names_of_scopes_and_profiles_read_back() {
    for scopes in [
        HindsightObservationScopes::PerTag,
        HindsightObservationScopes::Combined,
        HindsightObservationScopes::AllCombinations,
        HindsightObservationScopes::Shared,
    ] {
        assert_eq!(HindsightObservationScopes::from_name(scopes.name()), Ok(Some(scopes)));
    }
    for profile in [
        HindsightRenderProfile::LegacyV1,
        HindsightRenderProfile::ReferenceMessage,
        HindsightRenderProfile::ReferenceToolAware,
    ] {
        assert_eq!(HindsightRenderProfile::from_name(profile.name()), Ok(profile));
    }
    assert!(matches!(
        HindsightRenderProfile::from_name("other"),
        Err(HindsightConsumerError::InvalidConfiguration(_))
    ));
    assert!(HindsightObservationScopes::from_name("other").is_err());
}

#[test]
fn http_configuration_is_checked() {
    let config = HindsightHttpConfig::new("http://localhost:8888/", 30, 0).unwrap();
    assert_eq!(
        config.endpoint("bank"),
        "http://localhost:8888/v1/default/banks/bank/memories"
    );
    assert_eq!((config.timeout_seconds(), config.timeout_nanoseconds()), (30, 0));
    assert!(HindsightHttpConfig::new("http://localhost", 0, 0).is_err());
    assert!(HindsightHttpConfig::new("ftp://localhost", 1, 0).is_err());
    assert!(validate_bank_id("codex-pilot").is_ok());
    assert!(validate_bank_id("").is_err());
    assert!(validate_bank_id("a/b").is_err());
    assert_eq!(workspace_tag("My Work_2"), "my-work_2");
}

fn request(scopes: Option<HindsightObservationScopes>) -> HindsightRetainRequest {
    HindsightRetainRequest {
        bank_id: "bank".to_owned(),
        document_id: "document".to_owned(),
        source_id: "source".to_owned(),
        content: "said \"this\"".to_owned(),
        context: "context".to_owned(),
        timestamp: None,
        metadata: Metadata::new().with("b", "2").with("a", "1").with("b", "3"),
        tags: vec!["t".to_owned()],
        observation_scopes: scopes,
    }
}

#[test]
fn a_retain_call_carries_its_document() {
    let body: serde_json::Value = serde_json::from_str(&retain_body(&request(None))).unwrap();
    let item = body.get("items").unwrap().get(0).unwrap();
    assert_eq!(item.get("content").unwrap(), "said \"this\"");
    assert_eq!(item.get("document_id").unwrap(), "document");
    assert_eq!(item.get("metadata").unwrap().get("b").unwrap(), "3");
    assert!(item.get("observation_scopes").is_none());
    let body: serde_json::Value =
        serde_json::from_str(&retain_body(&request(Some(HindsightObservationScopes::Combined))))
            .unwrap();
    let item = body.get("items").unwrap().get(0).unwrap();
    assert_eq!(item.get("observation_scopes").unwrap(), "combined");
}

#[test]
fn answers_to_a_retain_call_are_judged() {
    let accepted = read_response(200, "{\"success\":true,\"operation_id\":\"o\"}").unwrap();
    assert_eq!(accepted.operation_id.as_deref(), Some("o"));
    assert_eq!(read_response(200, "{\"success\":true}").unwrap().operation_id, None);
    assert!(read_response(200, "{\"success\":false}").is_err());
    assert!(read_response(200, "nothing").is_err());
    assert_eq!(
        read_response(202, "{\"success\":false}").unwrap_err(),
        "Hindsight rejected retain request (202): {\"success\":false}"
    );
    let value = parse_text("{\"success\":true}");
    assert!(judge_response(200, "{\"success\":true}", &value).is_ok());
    assert_eq!(http_status_error(503, " busy\n"), "Hindsight returned HTTP 503: busy");
    assert_eq!(http_transport_error("refused"), "could not reach Hindsight: refused");
}

#[test]
fn tool_output_is_cut_at_its_bound() {
    let (short, cut) = truncate_tool_output("short");
    assert_eq!((short.as_str(), cut), ("short", false));
    let (long, cut) = truncate_tool_output(&"é".repeat(2_500));
    assert!(cut);
    assert!(long.ends_with("... (truncated)"));
    assert_eq!(long.chars().count(), 2_000 + "... (truncated)".chars().count());
}

#[test]
fn memory_tags_are_stripped() {
    let (text, stripped) =
        strip_memory_tags("a <hindsight_memories>x</hindsight_memories> b");
    assert!(stripped);
    assert!(!text.contains("hindsight_memories") && text.contains('a') && text.contains('b'));
    assert_eq!(strip_memory_tags("plain"), ("plain".to_owned(), false));
    assert!(is_synthetic_codex_user_message(
        " # AGENTS.md instructions for /work\n<INSTRUCTIONS>x</INSTRUCTIONS>"
    ));
    assert!(!is_synthetic_codex_user_message("Please read AGENTS.md"));
}

#[test]
fn texts_are_taken_from_blocks() {
    let blocks = parse_text(
        "[{\"type\":\"input_text\",\"text\":\"a\"},{\"type\":\"image\"},{\"type\":\"output_text\",\"text\":\"b\"}]",
    )
    .unwrap();
    assert_eq!(extract_text_from_content_blocks(Some(&blocks)), "a\nb");
    assert_eq!(extract_text_from_content_blocks(None), "");
    assert_eq!(extract_function_output_text(&Json::Text("out".to_owned())), "out");
    assert_eq!(value_to_text(&Json::Text("plain".to_owned())), "plain");
    assert_eq!(value_to_text(&parse_text("{\"b\":1,\"a\":2}").unwrap()), "{\"a\":2,\"b\":1}");
    assert_eq!(extract_mcp_result_text(&Json::Null), None);
}

#[test]
fn lines_and_transcripts_are_read_whole() {
    assert_eq!(split_lines(b"a\n\nb"), vec![b"a".to_vec(), Vec::new(), b"b".to_vec()]);
    for broken in ["", "\n", "{}\n", "not json\n"] {
        assert!(matches!(
            parse_codex_transcript(broken.as_bytes(), HindsightRenderProfile::LegacyV1),
            Err(HindsightConsumerError::InvalidTranscript(_))
        ));
    }
    let source = "{\"timestamp\":\"t1\",\"type\":\"event_msg\",\"payload\":{\"type\":\"user_message\",\"message\":\"hello\"}}\n";
    let legacy =
        parse_codex_transcript(source.as_bytes(), HindsightRenderProfile::LegacyV1).unwrap();
    assert_eq!(legacy.content, "User (t1): hello");
    assert_eq!(legacy.last_timestamp.as_deref(), Some("t1"));
    assert_eq!(legacy.session_id, None);
    let fallback =
        parse_codex_transcript(source.as_bytes(), HindsightRenderProfile::ReferenceMessage)
            .unwrap();
    assert!(fallback.content.contains("hello"));
}

#[test]
fn the_older_form_is_rendered_only_where_there_is_no_other() {
    let older = "{\"type\":\"event_msg\",\"payload\":{\"type\":\"user_message\",\"message\":\"older\"}}\n";
    let message = "{\"type\":\"response_item\",\"payload\":{\"type\":\"message\",\"role\":\"user\",\"content\":[{\"type\":\"input_text\",\"text\":\"newer\"}]}}\n";
    let render = |source: String| {
        parse_codex_transcript(source.as_bytes(), HindsightRenderProfile::ReferenceMessage)
            .unwrap()
            .content
    };
    let alone = render(message.to_owned());
    assert!(alone.contains("newer"));
    assert_eq!(render(format!("{older}{message}")), alone);
    assert_eq!(render(format!("{message}{older}")), alone);
    assert_eq!(render(format!("{older}{message}{older}")), alone);
    assert!(render(older.to_owned()).contains("older"));
}
