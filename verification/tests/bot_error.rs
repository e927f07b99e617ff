use discord_llm_bot::bot::error::{BotError, ErrorSeverity, ErrorTracker, LogLevel, Logger, RECENT_ERRORS};

#[test]
fn error_severity_labels() {
    assert_eq!(ErrorSeverity::Critical.as_str(), "CRITICAL");
    assert_eq!(ErrorSeverity::High.as_str(), "HIGH");
    assert_eq!(ErrorSeverity::Medium.as_str(), "MEDIUM");
    assert_eq!(ErrorSeverity::Low.as_str(), "LOW");
    assert_eq!(ErrorSeverity::Info.as_str(), "INFO");
}

#[test]
fn error_constructors_and_messages() {
    assert_eq!(BotError::database("locked").message(), "Database error: locked");
    assert_eq!(
        BotError::tts_error("timeout", "Google", true).message(),
        "TTS service error: timeout. Voice: Google, fallback: true"
    );
    assert_eq!(
        BotError::permission_error("/join", &vec!["CONNECT", "SPEAK"]).message(),
        "Permission denied: Required permissions not met in /join: CONNECT, SPEAK. Missing or insufficient access."
    );
    assert_eq!(
        BotError::permission_error("/x", &Vec::new()).message(),
        "Permission denied: Required permissions not met in /x: . Missing or insufficient access."
    );
    assert_eq!(
        BotError::config_error("LANG", Some("xx"), "bad language").message(),
        "Configuration error: bad language (LANG=xx)"
    );
    assert_eq!(
        BotError::config_error("BOT_TOKEN", None, "missing").message(),
        "Configuration error: missing BOT_TOKEN (not set)"
    );
    assert_eq!(
        BotError::api_error("fish", "slow down", Some(125)).message(),
        "External API error (fish): slow down (retry after 12.5s)"
    );
    assert_eq!(BotError::api_error("fish", "down", None).message(), "External API error (fish): down");
    assert_eq!(
        BotError::RateLimitExceeded { user_id: 7, retry_after_tenths: 30 }.message(),
        "Rate limit exceeded for user 7. Retry after 3.0s"
    );
    assert_eq!(
        BotError::CommandError { context: "speak".to_string(), message: "empty".to_string() }.message(),
        "Command execution error: speak: empty"
    );
    assert_eq!(
        BotError::UnexpectedError { context: "loop".to_string(), message: "boom".to_string() }.message(),
        "Unexpected error in loop: boom"
    );
    assert_eq!(BotError::VoiceConnection("lost".to_string()).message(), "Voice connection error: lost");
    assert_eq!(BotError::FileError("gone".to_string()).message(), "File operation error: gone");
}

#[test]
fn error_severity_and_user_action() {
    assert_eq!(BotError::database("x").severity(), ErrorSeverity::High);
    assert_eq!(BotError::FileError("x".to_string()).severity(), ErrorSeverity::Medium);
    assert_eq!(BotError::RateLimitExceeded { user_id: 1, retry_after_tenths: 1 }.severity(), ErrorSeverity::Info);
    assert!(BotError::PermissionError("x".to_string()).requires_user_action());
    assert!(BotError::RateLimitExceeded { user_id: 1, retry_after_tenths: 1 }.requires_user_action());
    assert!(!BotError::database("x").requires_user_action());
}

#[test]
fn error_contexts() {
    assert_eq!(BotError::database("locked").get_context(), "DB: locked");
    assert_eq!(BotError::tts_error("t", "bob", true).get_context(), "TTS [bob (fallback)]: t");
    assert_eq!(BotError::tts_error("t", "bob", false).get_context(), "TTS [bob]: t");
    assert_eq!(BotError::api_error("fish", "m", Some(5)).get_context(), "API: m (retry after 0.5s)");
    assert_eq!(
        BotError::RateLimitExceeded { user_id: 9, retry_after_tenths: 105 }.get_context(),
        "RATE_LIMIT(user_9): 10.5s remaining"
    );
}

#[test]
fn error_user_messages_are_marked_by_severity() {
    assert_eq!(BotError::database("x").to_user_message(), "⚠️ Database error: x");
    assert_eq!(BotError::FileError("x".to_string()).to_user_message(), "📋 File operation error: x");
    assert_eq!(
        BotError::CommandError { context: "c".to_string(), message: "m".to_string() }.to_user_message(),
        "ℹ️ Command execution error: c: m"
    );
}

#[test]
fn logger_lines() {
    let e = Logger::info("ctx", "hello");
    assert_eq!(e.level, LogLevel::Info);
    assert_eq!(e.line, "[ctx] hello");
    assert_eq!(Logger::warn("ctx", "careful", Some("d")).line, "[ctx] careful: d");
    assert_eq!(Logger::warn("ctx", "careful", None).line, "[ctx] careful");
    assert_eq!(Logger::warn("ctx", "careful", None).level, LogLevel::Warn);
    let e = Logger::error("ctx", "bad");
    assert_eq!((e.level, e.line.as_str()), (LogLevel::Error, "[ctx] ERROR: bad"));
    assert_eq!(Logger::debug("ctx", "d").level, LogLevel::Debug);
    assert_eq!(
        Logger::log_command_execution(5, "speak", Some("{\"text\":\"hi\"}"), 120, true).line,
        "[COMMAND_EXECUTION] user=5, command=speak, duration=120ms, status=SUCCESS, parameters={\"text\":\"hi\"}"
    );
    assert_eq!(
        Logger::log_command_execution(5, "stop", None, 3, false).line,
        "[COMMAND_EXECUTION] user=5, command=stop, duration=3ms, status=FAILED, parameters="
    );
    assert_eq!(
        Logger::log_tts_operation("Google", "synthesis", 42, false).line,
        "[TTS-Google] synthesis completed in 42ms (status: COMPLETED_WITH_WARNINGS)"
    );
    assert_eq!(
        Logger::log_database_operation("SELECT", "sentences", 3, 7).line,
        "[DATABASE] SELECT on sentences - Records affected: 3, Execution time: 7ms"
    );
    assert_eq!(
        Logger::log_api_interaction("fish", "/v1/tts", 200, 15, true).line,
        "[fish] fish - Endpoint: /v1/tts, Status: 200 (15ms), Result: SUCCESS"
    );
}

#[test]
fn tracker_counts_and_keeps_recent() {
    let mut t = ErrorTracker::new();
    assert_eq!(t.total_errors, 0);
    t.record_error(BotError::database("a"), "Database", 100);
    t.record_error(BotError::database("b"), "Database", 200);
    t.record_error(BotError::FileError("c".to_string()), "FileError", 300);
    assert_eq!(t.total_errors, 3);
    assert_eq!(t.errors_by_type, vec![("Database".to_string(), 2), ("FileError".to_string(), 1)]);
    assert_eq!(t.recent_errors.len(), 3);
    assert_eq!(t.recent_errors[2].0, 300);
}

#[test]
fn tracker_drops_oldest_beyond_limit() {
    let mut t = ErrorTracker::new();
    for i in 0..(RECENT_ERRORS as u64 + 5) {
        t.record_error(BotError::database("x"), "Database", i);
    }
    assert_eq!(t.recent_errors.len(), RECENT_ERRORS);
    assert_eq!(t.recent_errors[0].0, 5);
    assert_eq!(t.recent_errors[RECENT_ERRORS - 1].0, RECENT_ERRORS as u64 + 4);
}

#[test]
fn tracker_recent_window() {
    let mut t = ErrorTracker::new();
    t.record_error(BotError::database("old"), "Database", 1000);
    t.record_error(BotError::database("mid"), "Database", 8000);
    t.record_error(BotError::database("new"), "Database", 9000);
    let r = t.get_recent_errors(1, 10_000);
    let times: Vec<u64> = r.iter().map(|e| e.0).collect();
    assert_eq!(times, vec![8000, 9000]);
    assert_eq!(t.get_recent_errors(100, 10_000).len(), 3);
}
