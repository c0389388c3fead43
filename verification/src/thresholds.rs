//! Display limits, key span names and labels of slow-turn causes.

use vstd::prelude::*;
use crate::strings::str_eq;

verus! {

/// Max slow turns to show per cause in diagnosis.
pub const MAX_SLOW_TURNS_PER_CAUSE: usize = 3;
/// Max warnings to show in report.
pub const MAX_WARNINGS_DISPLAY: usize = 10;
/// Max tool calls to show in timeline.
pub const MAX_TOOL_CALLS_DISPLAY: usize = 15;
/// Max spans to show in timeline.
pub const MAX_SPANS_DISPLAY: usize = 30;
/// Max detected delays to show.
pub const MAX_DETECTED_DELAYS: usize = 5;
/// Text preview length (short).
pub const TEXT_PREVIEW_SHORT: usize = 50;
/// Text preview length (medium).
pub const TEXT_PREVIEW_MEDIUM: usize = 100;
/// Text preview length (long).
pub const TEXT_PREVIEW_LONG: usize = 200;

/// Names of the spans that matter for the timeline and the analysis.
pub open spec fn spec_is_key_span(name: Seq<char>) -> bool {
    ||| name == "agent_turn"@
    ||| name == "user_turn"@
    ||| name == "llm_node"@
    ||| name == "tts_request"@
    ||| name == "tts_node"@
    ||| name == "stt_request"@
    ||| name == "function_call"@
    ||| name == "tool_call"@
}

/// Check if a span name is a key span.
pub fn is_key_span(name: &str) -> (res: bool)
    ensures
        res == spec_is_key_span(name@),
{
    str_eq(name, "agent_turn") || str_eq(name, "user_turn") || str_eq(name, "llm_node")
        || str_eq(name, "tts_request") || str_eq(name, "tts_node") || str_eq(name, "stt_request")
        || str_eq(name, "function_call") || str_eq(name, "tool_call")
}

pub open spec fn spec_cause_label(cause: Seq<char>) -> Seq<char> {
    if cause == "OVERHEAD"@ { "PROCESSING GAPS"@ }
    else if cause == "LLM"@ { "LLM"@ }
    else if cause == "TTS"@ { "TTS"@ }
    else if cause == "TOOL"@ { "TOOL"@ }
    else if cause == "STT"@ { "STT"@ }
    else { "UNKNOWN"@ }
}

/// Get the display label for a cause.
pub fn cause_label(cause: &str) -> (s: &'static str)
    ensures
        s@ == spec_cause_label(cause@),
{
    if str_eq(cause, "OVERHEAD") { "PROCESSING GAPS" }
    else if str_eq(cause, "LLM") { "LLM" }
    else if str_eq(cause, "TTS") { "TTS" }
    else if str_eq(cause, "TOOL") { "TOOL" }
    else if str_eq(cause, "STT") { "STT" }
    else { "UNKNOWN" }
}

pub open spec fn spec_cause_hint(cause: Seq<char>) -> Seq<char> {
    if cause == "OVERHEAD"@ { " (time between stages, streaming, network)"@ }
    else if cause == "LLM"@ { " (model inference)"@ }
    else if cause == "TTS"@ { " (speech synthesis)"@ }
    else if cause == "TOOL"@ { " (function execution)"@ }
    else { ""@ }
}

/// Get hint text explaining a cause.
pub fn cause_hint(cause: &str) -> (s: &'static str)
    ensures
        s@ == spec_cause_hint(cause@),
{
    if str_eq(cause, "OVERHEAD") { " (time between stages, streaming, network)" }
    else if str_eq(cause, "LLM") { " (model inference)" }
    else if str_eq(cause, "TTS") { " (speech synthesis)" }
    else if str_eq(cause, "TOOL") { " (function execution)" }
    else { "" }
}

} // verus!
