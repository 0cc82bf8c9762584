use whisburn_engine::summarize::{
    build_prompt, chunk_transcript, finish_summary, keep_section_summary, merge_user_prompt,
    section_progress_report, section_user_prompt, strip_think, SummaryStep, CHUNK_WORDS,
};

#[test]
fn chunks_long_english_on_sentence_boundaries() {
    let mut text = String::new();
    for i in 0..4000 {
        text.push_str(&format!("This is sentence number {i}. "));
    }
    let chunks = chunk_transcript(&text, CHUNK_WORDS);
    assert!(chunks.len() >= 2);
    assert!(chunks.iter().all(|c| !c.is_empty()));
    let total: usize = chunks.iter().map(|c| c.split_whitespace().count()).sum();
    assert_eq!(total, text.split_whitespace().count());
}

#[test]
fn short_text_is_one_chunk() {
    let chunks = chunk_transcript("Hello there. This is short.", 1800);
    assert_eq!(chunks.len(), 1);
}

#[test]
fn strips_think_blocks() {
    let raw = "<think>\nplan\n</think>\n- Point one\n- Point two";
    assert_eq!(strip_think(raw), "- Point one\n- Point two");
}

#[test]
fn blank_text_has_no_chunks() {
    assert!(chunk_transcript("  \n\t ", 10).is_empty());
}

#[test]
fn short_text_chunk_is_trimmed_text() {
    let chunks = chunk_transcript("  one  two\tthree \n", 5);
    assert_eq!(chunks, vec!["one  two\tthree".to_string()]);
}

#[test]
fn chunk_cuts_after_last_sentence_in_final_quarter() {
    // 8 words per window; the final quarter starts at word 6; "seven." ends a sentence.
    let text = "one two three four five six seven. eight nine ten";
    let chunks = chunk_transcript(text, 8);
    assert_eq!(chunks, vec!["one two three four five six seven.".to_string(), "eight nine ten".to_string()]);
}

#[test]
fn chunk_without_sentence_end_takes_full_window() {
    let text = "a b c d e f g";
    let chunks = chunk_transcript(text, 3);
    assert_eq!(chunks, vec!["a b c".to_string(), "d e f".to_string(), "g".to_string()]);
}

#[test]
fn unclosed_think_block_is_dropped() {
    assert_eq!(strip_think("answer <think> never closed"), "answer");
}

#[test]
fn several_think_blocks_are_removed() {
    assert_eq!(strip_think(" a<think>x</think>b<think>y</think>c "), "abc");
}

#[test]
fn nested_tag_formed_by_removal_is_removed_too() {
    assert_eq!(strip_think("<thi<think>x</think>nk>hidden</think>shown"), "shown");
}

#[test]
fn prompt_wraps_user_message() {
    let p = build_prompt("hi");
    assert!(p.starts_with("<|im_start|>system\nYou summarize English speech transcripts."));
    assert!(p.ends_with("<|im_start|>user\nhi\n/no_think<|im_end|>\n<|im_start|>assistant\n"));
}

#[test]
fn section_prompts() {
    assert_eq!(section_user_prompt(0, 1, "text"), "Summarize this English transcript:\n\ntext");
    assert_eq!(
        section_user_prompt(1, 3, "text"),
        "This is section 2 of 3 of a long English transcript. Summarize only this section:\n\ntext"
    );
    assert_eq!(section_progress_report(0, 1), (0, 1, "Summarizing section 1 of 1".to_string()));
    assert_eq!(section_progress_report(9, 12), (9, 13, "Summarizing section 10 of 12".to_string()));
}

#[test]
fn merge_prompt_lists_sections() {
    let parts = vec!["- a".to_string(), "- b".to_string()];
    assert_eq!(
        merge_user_prompt(&parts),
        "Combine these section summaries of a long English conversation into one concise summary with: overview, key points, decisions, action items.\n\nSection 1:\n- a\n\nSection 2:\n- b"
    );
}

#[test]
fn finishing_a_summary() {
    let mut parts: Vec<String> = Vec::new();
    keep_section_summary(&mut parts, "<think>only thoughts</think>  ");
    assert!(parts.is_empty());
    assert!(matches!(finish_summary(&parts), SummaryStep::Done(s) if s.is_empty()));
    keep_section_summary(&mut parts, "- one");
    assert!(matches!(finish_summary(&parts), SummaryStep::Done(s) if s == "- one"));
    keep_section_summary(&mut parts, "<think>x</think>- two");
    match finish_summary(&parts) {
        SummaryStep::Merge(p) => assert!(p.contains("Section 2:\n- two")),
        SummaryStep::Done(_) => panic!("two parts must be merged"),
    }
}
