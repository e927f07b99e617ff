use discord_llm_bot::wapp::llm::{
    ask_start, searxng_reply_digest, AskStart,
    duckduckgo_digest, ask_system_prompt, completion_content, completions_url, enriched_question, get_endpoint_configs,
    history_window_start, is_configured, is_refusal_error, json_format_for, json_line_trim, looks_like_refusal,
    mcp_answer_digest, mcp_digest, mcp_tool_text, parse_config_list, parse_structured_phrase,
    process_phrase_response, rotation_start, rotation_step, searxng_digest, strip_tags, translate_system_prompt,
    truncate_for_tts, urlencode, validate_phrase, Completion, LlmEndpoint, LlmTask, PhraseOutcome, Rotation,
    RotationAction, JSON_FORMAT_EN, JSON_FORMAT_IT,
};

#[test]
fn llm_refusal_errors() {
    assert!(is_refusal_error("REFUSED:ask"));
    assert!(!is_refusal_error("HTTP 500"));
}

#[test]
fn llm_json_format_by_language() {
    assert_eq!(json_format_for("eng"), JSON_FORMAT_EN);
    assert_eq!(json_format_for("english"), JSON_FORMAT_EN);
    assert_eq!(json_format_for("ita"), JSON_FORMAT_IT);
}

#[test]
fn llm_refusal_heuristics() {
    assert!(looks_like_refusal("I cannot assist with that"));
    assert!(looks_like_refusal("Mi dispiace, non posso farlo adesso"));
    assert!(looks_like_refusal("AS AN AI, I prefer not to"));
    assert!(!looks_like_refusal("I'm sorry for the delay"));
    assert!(!looks_like_refusal("Hello there"));
}

#[test]
fn llm_structured_phrases() {
    let p = parse_structured_phrase("Sure! {\"text\": \"Ciao a tutti\", \"refused\": false} bye").expect("phrase");
    assert_eq!((p.text.as_str(), p.refused), ("Ciao a tutti", false));
    let p = parse_structured_phrase("{\"refused\": \"yes\"}").expect("refusal");
    assert_eq!((p.text.as_str(), p.refused), ("", true));
    let p = parse_structured_phrase("{\"content\": \"'quoted'\"}").expect("content key");
    assert_eq!((p.text.as_str(), p.refused), ("quoted", false));
    let p = parse_structured_phrase("{\"refused\": true, \"text\": \"x\"}").expect("refused with text");
    assert_eq!((p.text.as_str(), p.refused), ("x", true));
    assert!(parse_structured_phrase("{\"text\": \"\", \"refused\": false}").is_none());
    assert!(parse_structured_phrase("no json").is_none());
    assert!(parse_structured_phrase("} {").is_none());
}

#[test]
fn llm_phrase_validation() {
    assert_eq!(
        validate_phrase("  \"Hello Bob, nice day!\"\nsecond line ", "bob", 5),
        Some("Hello Bob, nice day!".to_string())
    );
    assert_eq!(validate_phrase("safe", "", 1), None);
    assert_eq!(validate_phrase("User Safety: safe", "", 1), None);
    assert_eq!(validate_phrase("safe : yes", "", 1), None);
    assert_eq!(validate_phrase("Label: ok", "", 1), Some("Label: ok".to_string()));
    assert_eq!(validate_phrase("{\"a\":1}", "", 1), None);
    assert_eq!(validate_phrase("hi", "", 5), None);
    assert_eq!(validate_phrase("Hello world", "bob", 1), None);
    assert_eq!(validate_phrase("   ", "", 1), None);
    assert_eq!(
        validate_phrase("Response: this is a long enough answer", "", 1),
        Some("Response: this is a long enough answer".to_string())
    );
}

#[test]
fn llm_tts_truncation() {
    assert_eq!(truncate_for_tts("a".repeat(250)), format!("{}...", "a".repeat(200)));
    assert_eq!(truncate_for_tts("short".to_string()), "short");
}

#[test]
fn llm_phrase_outcomes() {
    match process_phrase_response("{\"text\":\"Great idea!\",\"refused\":false}", "", 1) {
        PhraseOutcome::Phrase(p) => assert_eq!(p, "Great idea!"),
        _ => panic!("expected a phrase"),
    }
    assert!(matches!(process_phrase_response("{\"text\":\"\",\"refused\":true}", "", 1), PhraseOutcome::Refused));
    assert!(matches!(process_phrase_response("I cannot comply.", "", 1), PhraseOutcome::Refused));
    assert!(matches!(
        process_phrase_response("{\"text\":\"I cannot comply\",\"refused\":false}", "", 1),
        PhraseOutcome::Refused
    ));
    assert!(matches!(process_phrase_response("{\"text\":\"safe\"}", "", 1), PhraseOutcome::Invalid));
    match process_phrase_response("Just a fine reply", "", 1) {
        PhraseOutcome::Phrase(p) => assert_eq!(p, "Just a fine reply"),
        _ => panic!("expected a phrase"),
    }
}

#[test]
fn llm_config_lists() {
    assert_eq!(parse_config_list(" a, ,b ,"), vec!["a", "b"]);
    assert_eq!(parse_config_list(""), Vec::<String>::new());
    let eps = get_endpoint_configs("http://a, http://b, http://c", "k1", "m1,m2");
    assert_eq!(eps.len(), 2);
    assert_eq!((eps[0].base_url.as_str(), eps[0].api_key.as_str(), eps[0].model.as_str()), ("http://a", "k1", "m1"));
    assert_eq!((eps[1].base_url.as_str(), eps[1].api_key.as_str(), eps[1].model.as_str()), ("http://b", "ollama", "m2"));
    assert!(!is_configured("", "", "m"));
    assert!(!is_configured("http://a", "", ""));
    assert!(is_configured("http://a", "", "m"));
}

fn endpoint(url: &str) -> LlmEndpoint {
    LlmEndpoint { base_url: url.to_string(), api_key: "k".to_string(), model: "m".to_string() }
}

#[test]
fn llm_rotation_without_endpoints() {
    match rotation_start(0).1 {
        RotationAction::Finish(Err(e)) => assert_eq!(e, "No LLM endpoints configured"),
        _ => panic!("expected an error"),
    }
    assert!(matches!(rotation_start(2).1, RotationAction::Send(0)));
}

#[test]
fn llm_rotation_retries_then_moves_on() {
    let eps = vec![endpoint("http://a"), endpoint("http://b")];
    let (mut st, _) = rotation_start(2);
    assert!(matches!(rotation_step(LlmTask::Ask, &eps, &mut st, Completion::RateLimited), RotationAction::Send(1)));
    assert_eq!((st.endpoint, st.empty_retries), (1, 0));
    assert!(matches!(rotation_step(LlmTask::Ask, &eps, &mut st, Completion::Content(String::new())), RotationAction::Send(1)));
    assert!(matches!(rotation_step(LlmTask::Ask, &eps, &mut st, Completion::Content(String::new())), RotationAction::Send(1)));
    assert_eq!(st.empty_retries, 2);
    match rotation_step(LlmTask::Ask, &eps, &mut st, Completion::Content(String::new())) {
        RotationAction::Finish(Err(e)) => {
            assert_eq!(e, "All LLM endpoints failed. Last error: Empty response at http://b")
        },
        _ => panic!("expected the final error"),
    }
}

#[test]
fn llm_rotation_answers() {
    let eps = vec![endpoint("http://a")];
    let mut st = Rotation { endpoint: 0, empty_retries: 0 };
    match rotation_step(LlmTask::Ask, &eps, &mut st, Completion::Content("Sure, here it is".to_string())) {
        RotationAction::Finish(Ok(a)) => assert_eq!(a, "Sure, here it is"),
        _ => panic!("expected an answer"),
    }
    let mut st = Rotation { endpoint: 0, empty_retries: 0 };
    match rotation_step(LlmTask::Ask, &eps, &mut st, Completion::Content("I cannot comply".to_string())) {
        RotationAction::Finish(Ok(a)) => assert_eq!(a, "REFUSED:ask"),
        _ => panic!("expected the refusal marker"),
    }
    let mut st = Rotation { endpoint: 0, empty_retries: 0 };
    match rotation_step(LlmTask::Translate, &eps, &mut st, Completion::Content("\"Bonjour\"".to_string())) {
        RotationAction::Finish(Ok(a)) => assert_eq!(a, "Bonjour"),
        _ => panic!("expected a translation"),
    }
}

#[test]
fn llm_rotation_error_texts() {
    let eps = vec![endpoint("http://a")];
    let cases = vec![
        (
            LlmTask::Translate,
            Completion::HttpError { status: "500 Internal Server Error".to_string(), body: "x".to_string() },
            "HTTP 500 Internal Server Error at http://a",
        ),
        (
            LlmTask::Ask,
            Completion::HttpError { status: "503".to_string(), body: "busy".to_string() },
            "HTTP 503 at http://a: busy",
        ),
        (LlmTask::Ask, Completion::BadJson("eof".to_string()), "JSON parse error at http://a: eof"),
        (LlmTask::Ask, Completion::ConnectFailed("refused".to_string()), "Connection error at http://a: refused"),
        (LlmTask::Translate, Completion::Content("\"\"".to_string()), "Empty response after cleanup at http://a"),
    ];
    for (task, outcome, expected) in cases {
        let mut st = Rotation { endpoint: 0, empty_retries: 0 };
        match rotation_step(task, &eps, &mut st, outcome) {
            RotationAction::Finish(Err(e)) => assert_eq!(e, format!("All LLM endpoints failed. Last error: {}", expected)),
            _ => panic!("expected an error"),
        }
    }
    let mut st = Rotation { endpoint: 0, empty_retries: 2 };
    match rotation_step(LlmTask::Ask, &eps, &mut st, Completion::Content("safe".to_string())) {
        RotationAction::Finish(Err(e)) => {
            assert_eq!(e, "All LLM endpoints failed. Last error: Invalid/garbage response at http://a")
        },
        _ => panic!("expected an error"),
    }
}

#[test]
fn llm_urls_and_content() {
    assert_eq!(completions_url("http://x/v1/"), "http://x/v1/chat/completions");
    assert_eq!(completions_url("http://x/v1"), "http://x/v1/chat/completions");
    assert_eq!(completion_content("{\"choices\":[{\"message\":{\"content\":\"hi\"}}]}"), "hi");
    assert_eq!(completion_content("{}"), "");
    assert_eq!(completion_content("not json"), "");
}

#[test]
fn llm_ask_prompt() {
    let p = ask_system_prompt("eng", "Bot", &vec!["one".to_string(), "two".to_string()]);
    assert!(p.starts_with("You are a humorous Discord voice bot."));
    assert!(p.contains("\nYou are known as \"Bot\".\nRespond in English.\n"));
    assert!(p.contains("style:\n- one\n- two\nAnswer the user's question concisely."));
    assert!(p.ends_with(JSON_FORMAT_EN));
    let many: Vec<String> = (0..35).map(|i| format!("s{}", i)).collect();
    let q = ask_system_prompt("ita", "Bot", &many);
    assert!(q.starts_with("Sei un bot vocale Discord umoristico."));
    assert!(q.contains("Rispondi in italiano."));
    assert!(q.contains("- s29\n"));
    assert!(!q.contains("- s30"));
    assert!(q.ends_with(JSON_FORMAT_IT));
}

#[test]
fn llm_translate_prompt() {
    assert_eq!(
        translate_system_prompt("French", "ita"),
        "You are a translation bot. Translate the user's text to French. Output ONLY the translation — no explanations, no quotes, no extra text. Keep the same tone and register. If the text is already in French, output it unchanged. The bot's interface language is Italian."
    );
    assert!(translate_system_prompt("French", "eng").ends_with("interface language is English."));
}

#[test]
fn llm_enriched_questions() {
    assert_eq!(enriched_question("q", None), "q");
    assert_eq!(
        enriched_question("q", Some("d")),
        "q\n\nWeb search results for the question (may contain the answer):\nd\nUse these results if they are relevant; ignore them if not."
    );
    assert_eq!(history_window_start(25), 15);
    assert_eq!(history_window_start(3), 0);
}

#[test]
fn llm_search_digests() {
    assert_eq!(mcp_digest(""), None);
    assert_eq!(mcp_digest("Title: A\nfoo\nDescription: B  \n"), Some("Title: A\nDescription: B\n".to_string()));
    assert_eq!(mcp_digest("just text"), Some("just text".to_string()));
    assert_eq!(mcp_digest(&"x".repeat(2000)), Some("x".repeat(1500)));
    let long: String = (0..20).map(|_| format!("Title: {}\n", "x".repeat(100))).collect();
    assert_eq!(mcp_digest(&long).map(|d| d.len()), Some(14 * 108));
}

#[test]
fn llm_result_digests() {
    let r = vec![
        ("A".to_string(), "a".to_string()),
        ("".to_string(), "skip".to_string()),
        ("B".to_string(), "b".to_string()),
    ];
    assert_eq!(searxng_digest(&r), Some("Title: A\nDescription: a\nTitle: B\nDescription: b\n".to_string()));
    assert_eq!(searxng_digest(&Vec::new()), None);
    let seven: Vec<(String, String)> = (0..7).map(|i| (format!("T{}", i), "c".to_string())).collect();
    let d = searxng_digest(&seven).expect("digest");
    assert!(d.contains("Title: T4\n"));
    assert!(!d.contains("Title: T5"));
}

#[test]
fn llm_text_helpers() {
    assert_eq!(json_line_trim("  data  "), "data");
    assert_eq!(strip_tags("<b>bold</b> and <i>it</i>"), "bold and it");
    assert_eq!(strip_tags("a > b"), "a  b");
    assert_eq!(urlencode("a b&c/é~"), "a%20b%26c%2F%C3%A9~");
}

#[test]
fn llm_tool_text_and_digest() {
    let body = "event: message\ndata: {\"result\":{\"content\":[{\"text\":\"Title: X\"}]}}\n\n";
    assert_eq!(mcp_tool_text(body), Some("Title: X".to_string()));
    assert_eq!(mcp_answer_digest(body), Some("Title: X\n".to_string()));
    assert_eq!(mcp_tool_text("event: message\n\n"), None);
    assert_eq!(mcp_tool_text("data: {\"result\":{\"content\":[{\"text\":\"\"}]}}"), None);
    assert_eq!(mcp_answer_digest("nothing"), None);
}

#[test]
fn llm_duckduckgo_digest() {
    let html = concat_parts(&[
        "<div><a class=\"result__a\" href=\"x\">First <b>title</b></a>",
        "<a class=\"result__snippet\" href=\"y\">Snip <b>one</b></a></div>",
        "<a class=\"result__a\" href=\"z\">Second</a>",
    ]);
    assert_eq!(duckduckgo_digest(&html), Some("Title: First \nDescription: Snip \nTitle: Second\n".to_string()));
    assert_eq!(duckduckgo_digest("<html></html>"), None);
    assert_eq!(duckduckgo_digest(""), None);
}

fn concat_parts(parts: &[&str]) -> String {
    parts.iter().map(|p| p.to_string()).collect()
}

#[test]
fn llm_rotation_sends_at_most_three_per_endpoint() {
    let eps = vec![endpoint("http://a"), endpoint("http://b"), endpoint("http://c")];
    let (mut st, mut action) = rotation_start(eps.len());
    let mut sends = 0;
    while let RotationAction::Send(_) = action {
        sends += 1;
        assert!(sends <= eps.len() * 3);
        action = rotation_step(LlmTask::Ask, &eps, &mut st, Completion::Content(String::new()));
    }
    assert_eq!(sends, 9);
}

#[test]
fn llm_documented_refusal_wordings() {
    assert!(looks_like_refusal("I'm sorry, I can't do that"));
    assert!(looks_like_refusal("Mi dispiace, non posso accontentare questa richiesta"));
    assert!(looks_like_refusal("Sorry, I really can't say that"));
    assert!(looks_like_refusal("Mi dispiace, ma non è possibile"));
    assert!(looks_like_refusal("SORRY, I REALLY CAN'T SAY THAT"));
    assert!(looks_like_refusal("Well. Sorry, I really can't say that, friend"));
    assert!(!looks_like_refusal("Sorry, I. Really, can't say"));
    assert!(!looks_like_refusal("I really can't stand Mondays"));
}

#[test]
fn llm_ask_checks_configuration_first() {
    match ask_start(0) {
        AskStart::NotConfigured(e) => assert_eq!(e, "No LLM endpoints configured"),
        AskStart::SearchThenAsk => panic!("expected the configuration error"),
    }
    assert!(matches!(ask_start(2), AskStart::SearchThenAsk));
}

#[test]
fn llm_searxng_reply_digest() {
    let body = r#"{"results":[{"title":"A","content":"first"},{"content":"no title"},{"title":"B"},
        {"title":"C","content":"c"},{"title":"D","content":"d"},{"title":"E","content":"e"}]}"#;
    assert_eq!(
        searxng_reply_digest(body),
        Some(
            "Title: A\nDescription: first\nTitle: B\nDescription: \nTitle: C\nDescription: c\nTitle: D\nDescription: d\n"
                .to_string()
        )
    );
    assert_eq!(searxng_reply_digest(r#"{"results":[]}"#), None);
    assert_eq!(searxng_reply_digest(r#"{"other":1}"#), None);
    assert_eq!(searxng_reply_digest("not json"), None);
}
