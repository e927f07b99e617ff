//! Structured errors of the Discord bot, their severity and user-facing
//! messages, the log lines of the structured logger, and error statistics.
use vstd::prelude::*;
use crate::text::{chars_of, string_from_chars, decimal, decimal_chars, append, append_str};

verus! {

/// Error severity levels for prioritization and monitoring.
#[derive(Clone, Copy, PartialEq, Eq, Structural, Debug)]
pub enum ErrorSeverity {
    Critical,
    High,
    Medium,
    Low,
    Info,
}

impl ErrorSeverity {
    /// The level as displayed: `CRITICAL`, `HIGH`, `MEDIUM`, `LOW`, `INFO`.
    pub fn as_str(&self) -> (r: &'static str)
        ensures
            r@ == match *self {
                ErrorSeverity::Critical => "CRITICAL"@,
                ErrorSeverity::High => "HIGH"@,
                ErrorSeverity::Medium => "MEDIUM"@,
                ErrorSeverity::Low => "LOW"@,
                ErrorSeverity::Info => "INFO"@,
            },
    {
        match self {
            ErrorSeverity::Critical => "CRITICAL",
            ErrorSeverity::High => "HIGH",
            ErrorSeverity::Medium => "MEDIUM",
            ErrorSeverity::Low => "LOW",
            ErrorSeverity::Info => "INFO",
        }
    }
}

/// Comprehensive error types for the Discord bot. A retry delay is kept in
/// tenths of a second, the precision it is displayed with.
pub enum BotError {
    Database(String),
    TtsService { message: String, voice: String, fallback: bool },
    VoiceConnection(String),
    PermissionError(String),
    Configuration(String),
    ExternalApi { api: String, message: String },
    FileError(String),
    CommandError { context: String, message: String },
    RateLimitExceeded { user_id: u64, retry_after_tenths: u64 },
    UnexpectedError { context: String, message: String },
}

/// A delay in tenths of a second shown with one decimal (`12.5`).
pub open spec fn tenths(t: nat) -> Seq<char> {
    decimal(t / 10) + seq!['.'] + decimal(t % 10)
}

fn tenths_chars(t: u64) -> (r: Vec<char>)
    ensures
        r@ == tenths(t as nat),
{
    let mut v = decimal_chars(t / 10);
    v.push('.');
    let d = decimal_chars(t % 10);
    append(&mut v, &d);
    v
}

/// Items joined with `, `.
pub open spec fn comma_joined(items: Seq<Seq<char>>) -> Seq<char>
    decreases items.len(),
{
    if items.len() == 0 {
        Seq::empty()
    } else if items.len() == 1 {
        items[0]
    } else {
        comma_joined(items.drop_last()) + ", "@ + items.last()
    }
}

impl BotError {
    /// A database error.
    pub fn database(error: &str) -> (r: Self)
        ensures
            r matches BotError::Database(m) && m@ == error@,
    {
        BotError::Database(error.to_string())
    }

    /// A TTS service error with fallback information.
    pub fn tts_error(message: &str, voice: &str, fallback: bool) -> (r: Self)
        ensures
            r matches BotError::TtsService { message: m, voice: v, fallback: f } && m@ == message@ && v@ == voice@
                && f == fallback,
    {
        BotError::TtsService { message: message.to_string(), voice: voice.to_string(), fallback }
    }

    /// A permission error listing the required permissions.
    pub fn permission_error(context: &str, required_permissions: &Vec<&str>) -> (r: Self)
        ensures
            r matches BotError::PermissionError(m) && m@ == "Required permissions not met in "@ + context@ + ": "@
                + comma_joined(required_permissions@.map_values(|p: &str| p@)) + ". Missing or insufficient access."@,
    {
        let ghost items = required_permissions@.map_values(|p: &str| p@);
        let mut perms: Vec<char> = Vec::new();
        let mut i: usize = 0;
        assert(items.take(0) =~= Seq::<Seq<char>>::empty());
        while i < required_permissions.len()
            invariant
                items == required_permissions@.map_values(|p: &str| p@),
                i <= required_permissions@.len(),
                perms@ == comma_joined(items.take(i as int)),
            decreases required_permissions@.len() - i,
        {
            assert(items.take(i + 1).drop_last() =~= items.take(i as int));
            if i > 0 {
                append_str(&mut perms, ", ");
            }
            append_str(&mut perms, required_permissions[i]);
            proof {
                if i == 0 {
                    assert(perms@ =~= items.take(1)[0]);
                }
            }
            i += 1;
        }
        assert(items.take(i as int) =~= items);
        let mut m = chars_of("Required permissions not met in ");
        append_str(&mut m, context);
        append_str(&mut m, ": ");
        append(&mut m, &perms);
        append_str(&mut m, ". Missing or insufficient access.");
        BotError::PermissionError(string_from_chars(m))
    }

    /// A configuration error naming the setting and its value.
    pub fn config_error(key: &str, value: Option<&str>, message: &str) -> (r: Self)
        ensures
            r matches BotError::Configuration(m) && m@ == message@ + " "@ + match value {
                Some(v) => "("@ + key@ + "="@ + v@ + ")"@,
                None => key@ + " (not set)"@,
            },
    {
        let mut m = chars_of(message);
        append_str(&mut m, " ");
        match value {
            Some(v) => {
                append_str(&mut m, "(");
                append_str(&mut m, key);
                append_str(&mut m, "=");
                append_str(&mut m, v);
                append_str(&mut m, ")");
            },
            None => {
                append_str(&mut m, key);
                append_str(&mut m, " (not set)");
            },
        }
        BotError::Configuration(string_from_chars(m))
    }

    /// An external API error, with the retry delay (in tenths of a second)
    /// appended to the message when known.
    pub fn api_error(api: &str, message: &str, retry_after_tenths: Option<u64>) -> (r: Self)
        ensures
            r matches BotError::ExternalApi { api: a, message: m } && a@ == api@ && m@ == match retry_after_tenths {
                Some(t) => message@ + " (retry after "@ + tenths(t as nat) + "s)"@,
                None => message@,
            },
    {
        let mut m = chars_of(message);
        match retry_after_tenths {
            Some(t) => {
                append_str(&mut m, " (retry after ");
                let d = tenths_chars(t);
                append(&mut m, &d);
                append_str(&mut m, "s)");
            },
            None => {},
        }
        BotError::ExternalApi { api: api.to_string(), message: string_from_chars(m) }
    }

    /// Whether the user has to act: permission, rate-limit and command errors.
    pub fn requires_user_action(&self) -> (b: bool)
        ensures
            b == (*self is PermissionError || *self is RateLimitExceeded || *self is CommandError),
    {
        match self {
            BotError::PermissionError(_) => true,
            BotError::RateLimitExceeded { .. } => true,
            BotError::CommandError { .. } => true,
            _ => false,
        }
    }

    /// Severity: database, TTS and API errors are high; voice, permission,
    /// configuration and file errors medium; the rest informational.
    pub fn severity(&self) -> (s: ErrorSeverity)
        ensures
            s == match *self {
                BotError::Database(_) | BotError::TtsService { .. } | BotError::ExternalApi { .. } => ErrorSeverity::High,
                BotError::VoiceConnection(_) | BotError::PermissionError(_) | BotError::Configuration(_)
                | BotError::FileError(_) => ErrorSeverity::Medium,
                _ => ErrorSeverity::Info,
            },
    {
        match self {
            BotError::Database(_) | BotError::TtsService { .. } | BotError::ExternalApi { .. } => ErrorSeverity::High,
            BotError::VoiceConnection(_) | BotError::PermissionError(_) | BotError::Configuration(_)
            | BotError::FileError(_) => ErrorSeverity::Medium,
            _ => ErrorSeverity::Info,
        }
    }

    pub open spec fn spec_message(self) -> Seq<char> {
        match self {
            BotError::Database(m) => "Database error: "@ + m@,
            BotError::TtsService { message, voice, fallback } => "TTS service error: "@ + message@ + ". Voice: "@
                + voice@ + ", fallback: "@ + (if fallback { "true"@ } else { "false"@ }),
            BotError::VoiceConnection(m) => "Voice connection error: "@ + m@,
            BotError::PermissionError(m) => "Permission denied: "@ + m@,
            BotError::Configuration(m) => "Configuration error: "@ + m@,
            BotError::ExternalApi { api, message } => "External API error ("@ + api@ + "): "@ + message@,
            BotError::FileError(m) => "File operation error: "@ + m@,
            BotError::CommandError { context, message } => "Command execution error: "@ + context@ + ": "@ + message@,
            BotError::RateLimitExceeded { user_id, retry_after_tenths } => "Rate limit exceeded for user "@ + decimal(
                user_id as nat,
            ) + ". Retry after "@ + tenths(retry_after_tenths as nat) + "s"@,
            BotError::UnexpectedError { context, message } => "Unexpected error in "@ + context@ + ": "@ + message@,
        }
    }

    /// The error's message, as its `Display` shows it.
    pub fn message(&self) -> (r: String)
        ensures
            r@ == self.spec_message(),
    {
        let mut v: Vec<char> = Vec::new();
        match self {
            BotError::Database(m) => {
                append_str(&mut v, "Database error: ");
                append_str(&mut v, m.as_str());
            },
            BotError::TtsService { message, voice, fallback } => {
                append_str(&mut v, "TTS service error: ");
                append_str(&mut v, message.as_str());
                append_str(&mut v, ". Voice: ");
                append_str(&mut v, voice.as_str());
                append_str(&mut v, ", fallback: ");
                if *fallback {
                    append_str(&mut v, "true");
                } else {
                    append_str(&mut v, "false");
                }
            },
            BotError::VoiceConnection(m) => {
                append_str(&mut v, "Voice connection error: ");
                append_str(&mut v, m.as_str());
            },
            BotError::PermissionError(m) => {
                append_str(&mut v, "Permission denied: ");
                append_str(&mut v, m.as_str());
            },
            BotError::Configuration(m) => {
                append_str(&mut v, "Configuration error: ");
                append_str(&mut v, m.as_str());
            },
            BotError::ExternalApi { api, message } => {
                append_str(&mut v, "External API error (");
                append_str(&mut v, api.as_str());
                append_str(&mut v, "): ");
                append_str(&mut v, message.as_str());
            },
            BotError::FileError(m) => {
                append_str(&mut v, "File operation error: ");
                append_str(&mut v, m.as_str());
            },
            BotError::CommandError { context, message } => {
                append_str(&mut v, "Command execution error: ");
                append_str(&mut v, context.as_str());
                append_str(&mut v, ": ");
                append_str(&mut v, message.as_str());
            },
            BotError::RateLimitExceeded { user_id, retry_after_tenths } => {
                append_str(&mut v, "Rate limit exceeded for user ");
                let u = decimal_chars(*user_id);
                append(&mut v, &u);
                append_str(&mut v, ". Retry after ");
                let t = tenths_chars(*retry_after_tenths);
                append(&mut v, &t);
                append_str(&mut v, "s");
            },
            BotError::UnexpectedError { context, message } => {
                append_str(&mut v, "Unexpected error in ");
                append_str(&mut v, context.as_str());
                append_str(&mut v, ": ");
                append_str(&mut v, message.as_str());
            },
        }
        string_from_chars(v)
    }

    /// Short context line for logging and monitoring.
    pub fn get_context(&self) -> (r: String)
        ensures
            r@ == match *self {
                BotError::Database(m) => "DB: "@ + m@,
                BotError::TtsService { message, voice, fallback } => "TTS ["@ + voice@ + (if fallback {
                    " (fallback)"@
                } else {
                    Seq::empty()
                }) + "]: "@ + message@,
                BotError::VoiceConnection(m) => "VOICE: "@ + m@,
                BotError::PermissionError(m) => "PERMISSIONS: "@ + m@,
                BotError::Configuration(m) => "CONFIG: "@ + m@,
                BotError::ExternalApi { api, message } => "API: "@ + message@,
                BotError::FileError(m) => "FILE: "@ + m@,
                BotError::CommandError { context, message } => "["@ + context@ + "] "@ + message@,
                BotError::RateLimitExceeded { user_id, retry_after_tenths } => "RATE_LIMIT(user_"@ + decimal(user_id as nat)
                    + "): "@ + tenths(retry_after_tenths as nat) + "s remaining"@,
                BotError::UnexpectedError { context, message } => "["@ + context@ + "] "@ + message@,
            },
    {
        let mut v: Vec<char> = Vec::new();
        match self {
            BotError::Database(m) => {
                append_str(&mut v, "DB: ");
                append_str(&mut v, m.as_str());
            },
            BotError::TtsService { message, voice, fallback } => {
                append_str(&mut v, "TTS [");
                append_str(&mut v, voice.as_str());
                let ghost before = v@;
                if *fallback {
                    append_str(&mut v, " (fallback)");
                } else {
                    assert(v@ =~= before + Seq::<char>::empty());
                }
                append_str(&mut v, "]: ");
                append_str(&mut v, message.as_str());
            },
            BotError::VoiceConnection(m) => {
                append_str(&mut v, "VOICE: ");
                append_str(&mut v, m.as_str());
            },
            BotError::PermissionError(m) => {
                append_str(&mut v, "PERMISSIONS: ");
                append_str(&mut v, m.as_str());
            },
            BotError::Configuration(m) => {
                append_str(&mut v, "CONFIG: ");
                append_str(&mut v, m.as_str());
            },
            BotError::ExternalApi { api: _, message } => {
                append_str(&mut v, "API: ");
                append_str(&mut v, message.as_str());
            },
            BotError::FileError(m) => {
                append_str(&mut v, "FILE: ");
                append_str(&mut v, m.as_str());
            },
            BotError::CommandError { context, message } => {
                append_str(&mut v, "[");
                append_str(&mut v, context.as_str());
                append_str(&mut v, "] ");
                append_str(&mut v, message.as_str());
            },
            BotError::RateLimitExceeded { user_id, retry_after_tenths } => {
                append_str(&mut v, "RATE_LIMIT(user_");
                let u = decimal_chars(*user_id);
                append(&mut v, &u);
                append_str(&mut v, "): ");
                let t = tenths_chars(*retry_after_tenths);
                append(&mut v, &t);
                append_str(&mut v, "s remaining");
            },
            BotError::UnexpectedError { context, message } => {
                append_str(&mut v, "[");
                append_str(&mut v, context.as_str());
                append_str(&mut v, "] ");
                append_str(&mut v, message.as_str());
            },
        }
        string_from_chars(v)
    }

    /// The message shown to users, marked by severity.
    pub fn to_user_message(&self) -> (r: String)
        ensures
            r@ == match self.severity_spec() {
                ErrorSeverity::High => "⚠️ "@,
                ErrorSeverity::Medium => "📋 "@,
                _ => "ℹ️ "@,
            } + self.spec_message(),
    {
        let mut v = match self.severity() {
            ErrorSeverity::High => chars_of("⚠️ "),
            ErrorSeverity::Medium => chars_of("📋 "),
            _ => chars_of("ℹ️ "),
        };
        let m = self.message();
        append_str(&mut v, m.as_str());
        string_from_chars(v)
    }

    pub open spec fn severity_spec(self) -> ErrorSeverity {
        match self {
            BotError::Database(_) | BotError::TtsService { .. } | BotError::ExternalApi { .. } => ErrorSeverity::High,
            BotError::VoiceConnection(_) | BotError::PermissionError(_) | BotError::Configuration(_)
            | BotError::FileError(_) => ErrorSeverity::Medium,
            _ => ErrorSeverity::Info,
        }
    }
}

// ───────────────────────── structured logging ─────────────────────────

/// Level of a log record.
#[derive(Clone, Copy, PartialEq, Eq, Structural, Debug)]
pub enum LogLevel {
    Error,
    Warn,
    Info,
    Debug,
}

/// A log record: its level and its line.
pub struct LogEntry {
    pub level: LogLevel,
    pub line: String,
}

/// Structured logging: each method returns the record to emit.
pub struct Logger;

impl Logger {
    /// `[context] message` at info level.
    pub fn info(context: &str, message: &str) -> (r: LogEntry)
        ensures
            r.level == LogLevel::Info,
            r.line@ == "["@ + context@ + "] "@ + message@,
    {
        let mut v = chars_of("[");
        append_str(&mut v, context);
        append_str(&mut v, "] ");
        append_str(&mut v, message);
        LogEntry { level: LogLevel::Info, line: string_from_chars(v) }
    }

    /// `[context] message: detail` (or without detail) at warn level.
    pub fn warn(context: &str, message: &str, details: Option<&str>) -> (r: LogEntry)
        ensures
            r.level == LogLevel::Warn,
            r.line@ == "["@ + context@ + "] "@ + message@ + match details {
                Some(d) => ": "@ + d@,
                None => Seq::empty(),
            },
    {
        let mut v = chars_of("[");
        append_str(&mut v, context);
        append_str(&mut v, "] ");
        append_str(&mut v, message);
        match details {
            Some(d) => {
                append_str(&mut v, ": ");
                append_str(&mut v, d);
            },
            None => {
                assert(v@ =~= v@ + Seq::<char>::empty());
            },
        }
        LogEntry { level: LogLevel::Warn, line: string_from_chars(v) }
    }

    /// `[context] ERROR: error` at error level.
    pub fn error(context: &str, error: &str) -> (r: LogEntry)
        ensures
            r.level == LogLevel::Error,
            r.line@ == "["@ + context@ + "] ERROR: "@ + error@,
    {
        let mut v = chars_of("[");
        append_str(&mut v, context);
        append_str(&mut v, "] ERROR: ");
        append_str(&mut v, error);
        LogEntry { level: LogLevel::Error, line: string_from_chars(v) }
    }

    /// `[context] message` at debug level.
    pub fn debug(context: &str, message: &str) -> (r: LogEntry)
        ensures
            r.level == LogLevel::Debug,
            r.line@ == "["@ + context@ + "] "@ + message@,
    {
        let mut v = chars_of("[");
        append_str(&mut v, context);
        append_str(&mut v, "] ");
        append_str(&mut v, message);
        LogEntry { level: LogLevel::Debug, line: string_from_chars(v) }
    }

    /// A command execution record; `parameters` is the JSON text of the
    /// command's parameters, when there are any.
    pub fn log_command_execution(user_id: u64, command: &str, parameters: Option<&str>, duration_ms: u64, success: bool) -> (r: LogEntry)
        ensures
            r.level == LogLevel::Info,
            r.line@ == "[COMMAND_EXECUTION] user="@ + decimal(user_id as nat) + ", command="@ + command@ + ", duration="@
                + decimal(duration_ms as nat) + "ms, status="@ + (if success { "SUCCESS"@ } else { "FAILED"@ })
                + ", parameters="@ + match parameters {
                Some(p) => p@,
                None => Seq::empty(),
            },
    {
        let mut v = chars_of("[COMMAND_EXECUTION] user=");
        let u = decimal_chars(user_id);
        append(&mut v, &u);
        append_str(&mut v, ", command=");
        append_str(&mut v, command);
        append_str(&mut v, ", duration=");
        let d = decimal_chars(duration_ms);
        append(&mut v, &d);
        append_str(&mut v, "ms, status=");
        if success {
            append_str(&mut v, "SUCCESS");
        } else {
            append_str(&mut v, "FAILED");
        }
        append_str(&mut v, ", parameters=");
        match parameters {
            Some(p) => append_str(&mut v, p),
            None => {
                assert(v@ =~= v@ + Seq::<char>::empty());
            },
        }
        LogEntry { level: LogLevel::Info, line: string_from_chars(v) }
    }

    /// A TTS operation record, logged under `TTS-<voice>`.
    pub fn log_tts_operation(voice: &str, operation: &str, duration_ms: u64, success: bool) -> (r: LogEntry)
        ensures
            r.level == LogLevel::Info,
            r.line@ == "[TTS-"@ + voice@ + "] "@ + operation@ + " completed in "@ + decimal(duration_ms as nat)
                + "ms (status: "@ + (if success { "SUCCESS"@ } else { "COMPLETED_WITH_WARNINGS"@ }) + ")"@,
    {
        let mut ctx = chars_of("TTS-");
        append_str(&mut ctx, voice);
        let ctx_s = string_from_chars(ctx);
        let mut m = chars_of(operation);
        append_str(&mut m, " completed in ");
        let d = decimal_chars(duration_ms);
        append(&mut m, &d);
        append_str(&mut m, "ms (status: ");
        if success {
            append_str(&mut m, "SUCCESS");
        } else {
            append_str(&mut m, "COMPLETED_WITH_WARNINGS");
        }
        append_str(&mut m, ")");
        let m_s = string_from_chars(m);
        proof {
            reveal_strlit("[TTS-");
            reveal_strlit("[");
            reveal_strlit("TTS-");
            assert("[TTS-"@ =~= "["@ + "TTS-"@);
        }
        Self::info(ctx_s.as_str(), m_s.as_str())
    }

    /// A database operation record, logged under `DATABASE`.
    pub fn log_database_operation(operation_type: &str, table: &str, records_affected: u64, execution_time_ms: u64) -> (r: LogEntry)
        ensures
            r.level == LogLevel::Info,
            r.line@ == "[DATABASE] "@ + operation_type@ + " on "@ + table@ + " - Records affected: "@ + decimal(
                records_affected as nat,
            ) + ", Execution time: "@ + decimal(execution_time_ms as nat) + "ms"@,
    {
        let mut m = chars_of(operation_type);
        append_str(&mut m, " on ");
        append_str(&mut m, table);
        append_str(&mut m, " - Records affected: ");
        let n = decimal_chars(records_affected);
        append(&mut m, &n);
        append_str(&mut m, ", Execution time: ");
        let t = decimal_chars(execution_time_ms);
        append(&mut m, &t);
        append_str(&mut m, "ms");
        let m_s = string_from_chars(m);
        proof {
            reveal_strlit("[DATABASE] ");
            reveal_strlit("[");
            reveal_strlit("DATABASE");
            reveal_strlit("] ");
            assert("[DATABASE] "@ =~= "["@ + "DATABASE"@ + "] "@);
        }
        Self::info("DATABASE", m_s.as_str())
    }

    /// An external API interaction record, logged under the API's name.
    pub fn log_api_interaction(api_name: &str, endpoint: &str, status_code: u16, latency_ms: u64, success: bool) -> (r: LogEntry)
        ensures
            r.level == LogLevel::Info,
            r.line@ == "["@ + api_name@ + "] "@ + api_name@ + " - Endpoint: "@ + endpoint@ + ", Status: "@ + decimal(
                status_code as nat,
            ) + " ("@ + decimal(latency_ms as nat) + "ms), Result: "@ + (if success { "SUCCESS"@ } else {
                "PARTIAL_SUCCESS"@
            }),
    {
        let mut m = chars_of(api_name);
        append_str(&mut m, " - Endpoint: ");
        append_str(&mut m, endpoint);
        append_str(&mut m, ", Status: ");
        let s = decimal_chars(status_code as u64);
        append(&mut m, &s);
        append_str(&mut m, " (");
        let l = decimal_chars(latency_ms);
        append(&mut m, &l);
        append_str(&mut m, "ms), Result: ");
        if success {
            append_str(&mut m, "SUCCESS");
        } else {
            append_str(&mut m, "PARTIAL_SUCCESS");
        }
        let m_s = string_from_chars(m);
        Self::info(api_name, m_s.as_str())
    }
}

// ───────────────────────── error statistics ─────────────────────────

/// Recent errors kept at most.
pub const RECENT_ERRORS: usize = 100;

/// Error statistics: the total, a count per error description, and the
/// most recent errors with their time (seconds since the epoch).
pub struct ErrorTracker {
    pub total_errors: u64,
    pub errors_by_type: Vec<(String, u64)>,
    pub recent_errors: Vec<(u64, BotError)>,
}

/// The first entry counting errors of `kind`, if there is one.
pub open spec fn kind_entry(by_type: Seq<(String, u64)>, kind: Seq<char>) -> Option<int> {
    if exists|i: int| 0 <= i < by_type.len() && by_type[i].0@ == kind {
        Some(choose|i: int| 0 <= i < by_type.len() && by_type[i].0@ == kind && forall|j: int| 0 <= j < i ==> by_type[j].0@ != kind)
    } else {
        None
    }
}

/// The counters after one more error of `kind`: its entry goes up by one
/// (wrapping), or a new entry with count 1 is added at the end.
pub open spec fn counted(before: Seq<(String, u64)>, after: Seq<(String, u64)>, kind: Seq<char>) -> bool {
    match kind_entry(before, kind) {
        Some(i) => after == before.update(i, (before[i].0, ((before[i].1 + 1) % 0x1_0000_0000_0000_0000) as u64)),
        None => after.len() == before.len() + 1 && after.drop_last() == before && after.last().0@ == kind
            && after.last().1 == 1,
    }
}

/// No kind is counted under two entries.
pub open spec fn kinds_distinct(by_type: Seq<(String, u64)>) -> bool {
    forall|i: int, j: int| 0 <= i < j < by_type.len() ==> (#[trigger] by_type[i]).0@ != (#[trigger] by_type[j]).0@
}

/// Count one more error under `kind`.
fn count_kind(by_type: &mut Vec<(String, u64)>, kind: &str)
    ensures
        counted(old(by_type)@, final(by_type)@, kind@),
        kinds_distinct(old(by_type)@) ==> kinds_distinct(final(by_type)@),
{
    let kv = chars_of(kind);
    let mut i: usize = 0;
    while i < by_type.len()
        invariant
            i <= by_type@.len(),
            by_type@ == old(by_type)@,
            kv@ == kind@,
            forall|j: int| 0 <= j < i ==> by_type@[j].0@ != kind@,
        decreases by_type@.len() - i,
    {
        let kc = chars_of(by_type[i].0.as_str());
        if crate::text::seq_eq(&kc, &kv) {
            proof {
                let w = choose|k: int| 0 <= k < by_type@.len() && by_type@[k].0@ == kind@ && forall|j: int| 0 <= j < k ==> by_type@[j].0@ != kind@;
                assert(0 <= i < by_type@.len() && by_type@[i as int].0@ == kind@ && forall|j: int| 0 <= j < i ==> by_type@[j].0@ != kind@);
                if w < i {
                } else if w > i {
                    assert(by_type@[i as int].0@ != kind@);
                }
                assert(w == i);
            }
            let n = by_type[i].1.wrapping_add(1);
            let key = by_type[i].0.clone();
            let ghost before = by_type@;
            by_type.set(i, (key, n));
            assert(forall|k: int| 0 <= k < by_type@.len() ==> (#[trigger] by_type@[k]).0@ == before[k].0@);
            return;
        }
        i += 1;
    }
    let ghost before = by_type@;
    by_type.push((kind.to_string(), 1));
    assert(by_type@.drop_last() =~= before);
    assert(forall|k: int| 0 <= k < before.len() ==> (#[trigger] by_type@[k]) == before[k]);
}

impl ErrorTracker {
    /// At most [`RECENT_ERRORS`] recent errors are kept, and every kind is
    /// counted under one entry.
    pub open spec fn wf(self) -> bool {
        &&& self.recent_errors@.len() <= RECENT_ERRORS
        &&& kinds_distinct(self.errors_by_type@)
    }

    pub fn new() -> (r: Self)
        ensures
            r.total_errors == 0,
            r.errors_by_type@.len() == 0,
            r.recent_errors@.len() == 0,
            r.wf(),
    {
        ErrorTracker { total_errors: 0, errors_by_type: Vec::new(), recent_errors: Vec::new() }
    }

    /// Record an error: count it in the total and under its description
    /// (`kind`, its debug rendering), and keep it among the recent ones,
    /// dropping the oldest beyond [`RECENT_ERRORS`].
    pub fn record_error(&mut self, error: BotError, kind: &str, timestamp: u64)
        requires
            old(self).wf(),
        ensures
            final(self).wf(),
            final(self).total_errors == (old(self).total_errors + 1) % 0x1_0000_0000_0000_0000,
            counted(old(self).errors_by_type@, final(self).errors_by_type@, kind@),
            kinds_distinct(old(self).errors_by_type@) ==> kinds_distinct(final(self).errors_by_type@),
            final(self).recent_errors@.len() > 0,
            final(self).recent_errors@.last().0 == timestamp,
            final(self).recent_errors@.last().1 == error,
            final(self).recent_errors@.len() == if old(self).recent_errors@.len() >= RECENT_ERRORS {
                RECENT_ERRORS as int
            } else {
                old(self).recent_errors@.len() + 1int
            },
            forall|k: int| 0 <= k < final(self).recent_errors@.len() - 1 ==> #[trigger] final(self).recent_errors@[k]
                == old(self).recent_errors@[k + old(self).recent_errors@.len() + 1 - final(self).recent_errors@.len()],
    {
        self.total_errors = self.total_errors.wrapping_add(1);
        count_kind(&mut self.errors_by_type, kind);
        let ghost before = self.recent_errors@;
        if self.recent_errors.len() >= RECENT_ERRORS {
            let _oldest = self.recent_errors.remove(0);
        }
        self.recent_errors.push((timestamp, error));
    }

    /// The recent errors at or after `hours` hours before `now`.
    pub fn get_recent_errors(&self, hours: u64, now: u64) -> (r: Vec<&(u64, BotError)>)
        ensures
            ({
                let cutoff = if hours <= now / 3600 { now - hours * 3600 } else { 0 };
                &&& r@.len() == self.recent_errors@.filter(|e: (u64, BotError)| e.0 >= cutoff).len()
                &&& forall|k: int| 0 <= k < r@.len() ==> *(#[trigger] r@[k]) == self.recent_errors@.filter(
                    |e: (u64, BotError)| e.0 >= cutoff,
                )[k]
            }),
    {
        let cutoff: u64 = if hours <= now / 3600 { now - hours * 3600 } else { 0 };
        let mut r: Vec<&(u64, BotError)> = Vec::new();
        let mut i: usize = 0;
        let ghost pred = |e: (u64, BotError)| e.0 >= cutoff;
        assert(self.recent_errors@.take(0).filter(pred) =~= Seq::<(u64, BotError)>::empty());
        while i < self.recent_errors.len()
            invariant
                i <= self.recent_errors@.len(),
                pred == (|e: (u64, BotError)| e.0 >= cutoff),
                r@.len() == self.recent_errors@.take(i as int).filter(pred).len(),
                forall|k: int| 0 <= k < r@.len() ==> *(#[trigger] r@[k]) == self.recent_errors@.take(i as int).filter(pred)[k],
            decreases self.recent_errors@.len() - i,
        {
            proof {
                assert(self.recent_errors@.take(i + 1).drop_last() =~= self.recent_errors@.take(i as int));
                reveal(Seq::filter);
            }
            if self.recent_errors[i].0 >= cutoff {
                r.push(&self.recent_errors[i]);
            }
            i += 1;
        }
        assert(self.recent_errors@.take(i as int) =~= self.recent_errors@);
        r
    }
}

} // verus!
