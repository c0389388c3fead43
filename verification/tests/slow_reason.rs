use livekit_analyzer::timeline::{context_sample, determine_slow_reason, effective_room_id, TurnBreakdown};

fn bd(first_llm: Option<u64>, tool: Option<u64>, llm: Option<u64>, tts: Option<u64>, overhead: Option<u64>, names: &[&str]) -> TurnBreakdown {
    TurnBreakdown {
        first_llm_ms: first_llm,
        tool_ms: tool,
        llm_ms: llm,
        tts_ms: tts,
        overhead_ms: overhead,
        tool_names: names.iter().map(|n| n.to_string()).collect(),
    }
}

#[test]
fn largest_part_names_the_reason() {
    assert_eq!(determine_slow_reason(&bd(Some(100), None, Some(2500), Some(300), Some(50), &[])), "LLM took 2500ms");
    assert_eq!(determine_slow_reason(&bd(None, None, None, Some(900), Some(10), &[])), "TTS took 900ms");
    assert_eq!(
        determine_slow_reason(&bd(Some(1200), Some(300), None, None, Some(5), &[])),
        "overhead — llm1=1200ms deciding to call tool"
    );
    assert_eq!(
        determine_slow_reason(&bd(None, Some(4000), None, None, None, &["lookup", "book"])),
        "tool call dominated — lookup, book=4000ms"
    );
    assert_eq!(determine_slow_reason(&bd(None, Some(4000), None, None, None, &[])), "tool call dominated — tool call=4000ms");
    assert_eq!(determine_slow_reason(&bd(None, None, None, None, Some(700), &[])), "overhead — 700ms unexplained gap");
}

#[test]
fn ties_go_to_the_later_part() {
    assert_eq!(determine_slow_reason(&bd(Some(500), None, Some(500), Some(500), Some(500), &[])), "TTS took 500ms");
    assert_eq!(determine_slow_reason(&bd(None, None, None, None, None, &[])), "TTS took 0ms");
}

#[test]
fn room_id_falls_back_to_name_then_folder() {
    assert_eq!(effective_room_id("RM_1", "room", Some("dir")), "RM_1");
    assert_eq!(effective_room_id("", "room", Some("dir")), "room");
    assert_eq!(effective_room_id("", "", Some("dir")), "dir");
    assert_eq!(effective_room_id("", "", None), "unknown");
}

#[test]
fn context_sample_strides_and_keeps_the_last() {
    assert_eq!(context_sample(4), vec![0, 1, 2, 3]);
    assert_eq!(context_sample(0), Vec::<usize>::new());
    assert_eq!(
        context_sample(40),
        vec![0, 2, 4, 6, 8, 10, 12, 14, 16, 18, 20, 22, 24, 26, 28, 30, 32, 34, 36, 38, 39]
    );
    assert_eq!(context_sample(31), vec![0, 2, 4, 6, 8, 10, 12, 14, 16, 18, 20, 22, 24, 26, 28, 30]);
}
